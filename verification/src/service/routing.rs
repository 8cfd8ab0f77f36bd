//! The routing table: which nodes are known to host which projects, and
//! when each was last heard to.

use crate::clock::Timestamp;
use crate::identity::Id;
use crate::lookup::{find_first, is_first, lemma_absent, lemma_find_first, lemma_found};
use crate::service::message::NodeId;
use vstd::prelude::*;

verus! {

/// A node that hosts a project, with the time of the last announcement in
/// which it said so.
#[derive(Debug, Copy, Clone, PartialEq, Eq)]
pub struct Route {
    pub node: NodeId,
    pub seen: Timestamp,
}

/// The nodes known to host one project.
#[derive(Debug)]
pub struct RoutingEntry {
    pub project: Id,
    pub routes: Vec<Route>,
}

/// Network routing table. Keeps track of where projects are hosted.
#[derive(Debug)]
pub struct Routing {
    pub entries: Vec<RoutingEntry>,
}

/// The nodes of a list of routes, in the order of the routes.
pub open spec fn route_nodes(routes: Seq<Route>) -> Seq<NodeId> {
    routes.map_values(|r: Route| r.node)
}

/// The property of being the route to `node`.
pub open spec fn to_node(node: NodeId) -> spec_fn(Route) -> bool {
    |r: Route| r.node == node
}

/// Whether a route was announced recently enough at the time `now`: not
/// more than `ttl` seconds have passed since.
pub open spec fn live(route: Route, now: Timestamp, ttl: Timestamp) -> bool {
    now - route.seen <= ttl
}

/// The routes of a list that were announced recently enough at the time
/// `now`, in the order of the list.
pub open spec fn live_routes(routes: Seq<Route>, now: Timestamp, ttl: Timestamp) -> Seq<Route>
    decreases routes.len(),
{
    if routes.len() == 0 {
        Seq::empty()
    } else {
        let before = live_routes(routes.drop_last(), now, ttl);
        if live(routes.last(), now, ttl) {
            before.push(routes.last())
        } else {
            before
        }
    }
}

/// Every route that is left after pruning was there before.
pub proof fn lemma_live_routes_were_there(
    routes: Seq<Route>,
    now: Timestamp,
    ttl: Timestamp,
    i: int,
)
    requires
        0 <= i < live_routes(routes, now, ttl).len(),
    ensures
        routes.contains(live_routes(routes, now, ttl)[i]),
        live(live_routes(routes, now, ttl)[i], now, ttl),
    decreases routes.len(),
{
    let before = live_routes(routes.drop_last(), now, ttl);
    if i < before.len() {
        lemma_live_routes_were_there(routes.drop_last(), now, ttl, i);
        let k = choose|k: int|
            0 <= k < routes.drop_last().len() && routes.drop_last()[k] == before[i];
        assert(routes[k] == before[i]);
    } else {
        assert(routes[routes.len() - 1] == routes.last());
    }
}

/// Whether a list of nodes holds `node`.
pub fn nodes_contain(nodes: &Vec<NodeId>, node: &NodeId) -> (r: bool)
    ensures
        r == nodes@.contains(*node),
{
    let n: usize = nodes.len();
    let mut i: usize = 0;
    while i < n
        invariant
            n == nodes@.len(),
            i <= n,
            forall|j: int| 0 <= j < i ==> nodes@[j] != *node,
        decreases n - i,
    {
        if nodes[i] == *node {
            return true;
        }
        i = i + 1;
    }
    false
}

/// Find the route to `node`.
pub fn find_route(routes: &Vec<Route>, node: &NodeId) -> (r: Option<usize>)
    ensures
        match r {
            Some(k) => is_first(routes@, to_node(*node), k as int) && find_first(
                routes@,
                to_node(*node),
            ) == Some(k as int),
            None => find_first(routes@, to_node(*node)) is None && !route_nodes(
                routes@,
            ).contains(*node),
        },
        r is Some == route_nodes(routes@).contains(*node),
{
    let n: usize = routes.len();
    let mut i: usize = 0;
    while i < n
        invariant
            n == routes@.len(),
            i <= n,
            forall|j: int| 0 <= j < i ==> !to_node(*node)(#[trigger] routes@[j]),
        decreases n - i,
    {
        if routes[i].node == *node {
            proof {
                lemma_found(routes@, to_node(*node), i as int);
                assert(route_nodes(routes@)[i as int] == *node);
            }
            return Some(i);
        }
        i = i + 1;
    }
    proof {
        lemma_absent(routes@, to_node(*node));
        let nodes = route_nodes(routes@);
        assert forall|j: int| 0 <= j < nodes.len() implies nodes[j] != *node by {
            assert(!to_node(*node)(routes@[j]));
        }
    }
    None
}

impl Routing {
    /// Whether `i` is the place of the entry of `project`: the first entry
    /// that names it.
    pub open spec fn slot(self, project: Id, i: int) -> bool {
        &&& 0 <= i < self.entries@.len()
        &&& self.entries@[i].project == project
        &&& forall|j: int| 0 <= j < i ==> self.entries@[j].project != project
    }

    /// Whether the table has an entry for `project`.
    pub open spec fn known(self, project: Id) -> bool {
        exists|i: int| self.slot(project, i)
    }

    /// The routes to `project`, in the order in which the nodes were
    /// learnt of.
    pub open spec fn routes(self, project: Id) -> Seq<Route> {
        if self.known(project) {
            self.entries@[choose|i: int| self.slot(project, i)].routes@
        } else {
            Seq::<Route>::empty()
        }
    }

    /// The nodes known to host `project`, in the order in which they were
    /// learnt of.
    pub open spec fn nodes(self, project: Id) -> Seq<NodeId> {
        route_nodes(self.routes(project))
    }

    /// The nodes known to host `project`.
    pub open spec fn seeds(self, project: Id) -> Set<NodeId> {
        self.nodes(project).to_set()
    }

    /// The time of the last announcement in which `node` said that it
    /// hosts `project`.
    pub open spec fn seen(self, project: Id, node: NodeId) -> Option<Timestamp> {
        match find_first(self.routes(project), to_node(node)) {
            Some(k) => Some(self.routes(project)[k].seen),
            None => None,
        }
    }

    /// The place of the entry of a project is one place only.
    pub proof fn lemma_slot_unique(self, project: Id, a: int, b: int)
        requires
            self.slot(project, a),
            self.slot(project, b),
        ensures
            a == b,
    {
    }

    /// What stands at the place of a project is what the table knows of it.
    pub proof fn lemma_routes_at(self, project: Id, i: int)
        requires
            self.slot(project, i),
        ensures
            self.known(project),
            self.routes(project) == self.entries@[i].routes@,
    {
        let c = choose|c: int| self.slot(project, c);
        self.lemma_slot_unique(project, c, i);
    }

    /// The empty table.
    pub fn new() -> (r: Routing)
        ensures
            forall|project: Id| r.routes(project) == Seq::<Route>::empty(),
            forall|project: Id| r.nodes(project) == Seq::<NodeId>::empty(),
            r.entries@.len() == 0,
    {
        let r = Routing { entries: Vec::new() };
        assert forall|project: Id| r.nodes(project) == Seq::<NodeId>::empty() by {
            assert(r.nodes(project) =~= Seq::<NodeId>::empty());
        }
        r
    }

    /// Find the entry of a project.
    pub fn find(&self, project: &Id) -> (r: Option<usize>)
        ensures
            match r {
                Some(i) => self.slot(*project, i as int),
                None => !self.known(*project) && forall|j: int|
                    0 <= j < self.entries@.len() ==> self.entries@[j].project != *project,
            },
    {
        let n: usize = self.entries.len();
        let mut i: usize = 0;
        while i < n
            invariant
                n == self.entries@.len(),
                i <= n,
                forall|j: int| 0 <= j < i ==> self.entries@[j].project != *project,
            decreases n - i,
        {
            if self.entries[i].project == *project {
                return Some(i);
            }
            i = i + 1;
        }
        None
    }

    /// The nodes known to host `project`; none if the project is unknown.
    pub fn get(&self, project: &Id) -> (r: Vec<NodeId>)
        ensures
            r@ == self.nodes(*project),
    {
        match self.find(project) {
            Some(i) => {
                proof {
                    self.lemma_routes_at(*project, i as int);
                }
                let routes = &self.entries[i].routes;
                let mut r: Vec<NodeId> = Vec::new();
                let n: usize = routes.len();
                let mut k: usize = 0;
                while k < n
                    invariant
                        n == routes@.len(),
                        k <= n,
                        r@ == route_nodes(routes@).take(k as int),
                    decreases n - k,
                {
                    r.push(routes[k].node);
                    assert(r@ =~= route_nodes(routes@).take(k + 1));
                    k = k + 1;
                }
                assert(route_nodes(routes@).take(n as int) =~= route_nodes(routes@));
                r
            },
            None => {
                let r: Vec<NodeId> = Vec::new();
                assert(r@ =~= self.nodes(*project));
                r
            },
        }
    }

    /// Whether `node` is known to host `project`.
    pub fn contains(&self, project: &Id, node: &NodeId) -> (r: bool)
        ensures
            r == self.seeds(*project).contains(*node),
    {
        match self.find(project) {
            Some(i) => {
                proof {
                    self.lemma_routes_at(*project, i as int);
                }
                find_route(&self.entries[i].routes, node).is_some()
            },
            None => {
                assert(self.nodes(*project) =~= Seq::<NodeId>::empty());
                false
            },
        }
    }

    /// Note that `node` has announced at the time `seen` that it hosts
    /// `project`. Returns whether that is news. A lookup of the project
    /// finds the node from then on, and nothing that was known is lost.
    pub fn insert(&mut self, project: Id, node: NodeId, seen: Timestamp) -> (fresh: bool)
        ensures
            fresh == !old(self).seeds(project).contains(node),
            final(self).nodes(project) == if fresh {
                old(self).nodes(project).push(node)
            } else {
                old(self).nodes(project)
            },
            final(self).seeds(project).contains(node),
            final(self).seen(project, node) == Some(seen),
            forall|other: NodeId|
                other != node ==> final(self).seen(project, other) == old(self).seen(
                    project,
                    other,
                ),
            forall|other: Id|
                other != project ==> final(self).routes(other) == old(self).routes(other),
            forall|p: Id, n: NodeId|
                old(self).seeds(p).contains(n) ==> final(self).seeds(p).contains(n),
    {
        let ghost before = *self;
        let route = Route { node, seen };
        let fresh = match self.find(&project) {
            Some(i) => {
                proof {
                    before.lemma_routes_at(project, i as int);
                }
                let ghost was = before.routes(project);
                match find_route(&self.entries[i].routes, &node) {
                    Some(k) => {
                        self.entries[i].routes[k] = route;
                        proof {
                            let after = *self;
                            assert(after.slot(project, i as int));
                            after.lemma_routes_at(project, i as int);
                            let now = after.routes(project);
                            assert(now =~= was.update(k as int, route));
                            assert(route_nodes(now) =~= route_nodes(was));
                            assert(is_first(now, to_node(node), k as int)) by {
                                assert forall|j: int| 0 <= j < k implies !to_node(node)(
                                    #[trigger] now[j],
                                ) by {
                                    assert(now[j] == was[j]);
                                }
                            }
                            lemma_found(now, to_node(node), k as int);
                            assert forall|other: NodeId| other != node implies after.seen(
                                project,
                                other,
                            ) == before.seen(project, other) by {
                                lemma_seen_frame(was, now, other);
                            }
                            assert forall|other: Id| other != project implies after.routes(other)
                                == before.routes(other) by {
                                Self::lemma_frame(before, after, other);
                            }
                        }
                        false
                    },
                    None => {
                        self.entries[i].routes.push(route);
                        proof {
                            let after = *self;
                            assert(after.slot(project, i as int));
                            after.lemma_routes_at(project, i as int);
                            let now = after.routes(project);
                            assert(now =~= was.push(route));
                            assert(route_nodes(now) =~= route_nodes(was).push(node));
                            let last = was.len() as int;
                            assert(is_first(now, to_node(node), last)) by {
                                lemma_find_first(was, to_node(node));
                                assert forall|j: int| 0 <= j < last implies !to_node(node)(
                                    #[trigger] now[j],
                                ) by {
                                    assert(now[j] == was[j]);
                                }
                            }
                            lemma_found(now, to_node(node), last);
                            assert forall|other: NodeId| other != node implies after.seen(
                                project,
                                other,
                            ) == before.seen(project, other) by {
                                lemma_seen_pushed(was, route, other);
                            }
                            assert forall|other: Id| other != project implies after.routes(other)
                                == before.routes(other) by {
                                Self::lemma_frame(before, after, other);
                            }
                        }
                        true
                    },
                }
            },
            None => {
                let mut routes: Vec<Route> = Vec::new();
                routes.push(route);
                self.entries.push(RoutingEntry { project, routes });
                proof {
                    let after = *self;
                    let last = before.entries@.len() as int;
                    assert(after.entries@ =~= before.entries@.push(after.entries@[last]));
                    assert forall|j: int| 0 <= j < last implies after.entries@[j].project
                        != project by {
                        assert(after.entries@[j] == before.entries@[j]);
                    }
                    assert(after.slot(project, last));
                    after.lemma_routes_at(project, last);
                    let now = after.routes(project);
                    assert(now =~= seq![route]);
                    assert(before.routes(project) =~= Seq::<Route>::empty());
                    assert(route_nodes(now) =~= route_nodes(before.routes(project)).push(node));
                    assert(is_first(now, to_node(node), 0));
                    lemma_found(now, to_node(node), 0);
                    assert forall|other: NodeId| other != node implies after.seen(project, other)
                        == before.seen(project, other) by {
                        lemma_seen_pushed(before.routes(project), route, other);
                    }
                    assert forall|other: Id| other != project implies after.routes(other)
                        == before.routes(other) by {
                        if before.known(other) {
                            let j = choose|j: int| before.slot(other, j);
                            assert(after.slot(other, j));
                            after.lemma_routes_at(other, j);
                        } else {
                            assert forall|j: int| !after.slot(other, j) by {
                                if after.slot(other, j) {
                                    assert(j < last);
                                    assert forall|k: int| 0 <= k <= j implies before.entries@[k]
                                        == after.entries@[k] by {}
                                    assert(before.slot(other, j));
                                }
                            }
                        }
                    }
                }
                true
            },
        };
        proof {
            let after = *self;
            let got = after.nodes(project);
            if fresh {
                assert(got[got.len() - 1] == node);
            }
            assert forall|p: Id, n: NodeId| before.seeds(p).contains(n) implies after.seeds(
                p,
            ).contains(n) by {
                if p == project && fresh {
                    let k = choose|k: int|
                        0 <= k < before.nodes(p).len() && before.nodes(p)[k] == n;
                    assert(got[k] == n);
                }
            }
        }
        fresh
    }

    /// Drop every route that was not announced again within `ttl` seconds
    /// before the time `now`. No route is added, and the routes that are
    /// left are as they were.
    pub fn prune(&mut self, now: Timestamp, ttl: Timestamp)
        ensures
            forall|project: Id|
                final(self).routes(project) == live_routes(old(self).routes(project), now, ttl),
    {
        let ghost before = *self;
        let n: usize = self.entries.len();
        let mut i: usize = 0;
        while i < n
            invariant
                n == self.entries@.len(),
                n == before.entries@.len(),
                i <= n,
                forall|j: int|
                    0 <= j < n ==> (#[trigger] self.entries@[j]).project
                        == before.entries@[j].project,
                forall|j: int|
                    0 <= j < i ==> (#[trigger] self.entries@[j]).routes@ == live_routes(
                        before.entries@[j].routes@,
                        now,
                        ttl,
                    ),
                forall|j: int|
                    i <= j < n ==> (#[trigger] self.entries@[j]).routes == before.entries@[j].routes,
            decreases n - i,
        {
            let ghost routes = self.entries@[i as int].routes@;
            let mut kept: Vec<Route> = Vec::new();
            let m: usize = self.entries[i].routes.len();
            let mut k: usize = 0;
            assert(routes.take(0) =~= Seq::empty());
            while k < m
                invariant
                    i < n,
                    n == self.entries@.len(),
                    m == routes.len(),
                    routes == self.entries@[i as int].routes@,
                    k <= m,
                    kept@ == live_routes(routes.take(k as int), now, ttl),
                decreases m - k,
            {
                proof {
                    assert(routes.take(k + 1).drop_last() =~= routes.take(k as int));
                    assert(routes.take(k + 1).last() == routes[k as int]);
                }
                let route = self.entries[i].routes[k];
                let age: u64 = if now > route.seen {
                    now - route.seen
                } else {
                    0
                };
                if age <= ttl {
                    kept.push(route);
                }
                k = k + 1;
            }
            assert(routes.take(m as int) =~= routes);
            self.entries[i].routes = kept;
            i = i + 1;
        }
        proof {
            let after = *self;
            assert forall|project: Id| after.routes(project) == live_routes(
                before.routes(project),
                now,
                ttl,
            ) by {
                if before.known(project) {
                    let j = choose|j: int| before.slot(project, j);
                    assert(after.slot(project, j)) by {
                        assert(after.entries@[j].project == before.entries@[j].project);
                        assert forall|k: int| 0 <= k < j implies after.entries@[k].project
                            != project by {
                            assert(after.entries@[k].project == before.entries@[k].project);
                        }
                    }
                    after.lemma_routes_at(project, j);
                    before.lemma_routes_at(project, j);
                } else {
                    assert forall|j: int| !after.slot(project, j) by {
                        if after.slot(project, j) {
                            assert(after.entries@[j].project == before.entries@[j].project);
                            assert forall|k: int| 0 <= k < j implies before.entries@[k].project
                                != project by {
                                assert(after.entries@[k].project == before.entries@[k].project);
                            }
                            assert(before.slot(project, j));
                        }
                    }
                }
            }
        }
    }

    /// A project whose entry stands at the same place with the same routes
    /// in two tables is known alike in both.
    proof fn lemma_frame(before: Routing, after: Routing, other: Id)
        requires
            before.entries@.len() == after.entries@.len(),
            forall|j: int|
                0 <= j < before.entries@.len() ==> (#[trigger] before.entries@[j]).project
                    == after.entries@[j].project,
            forall|j: int|
                0 <= j < before.entries@.len() && before.entries@[j].project == other ==> (
                #[trigger] before.entries@[j]).routes@ == after.entries@[j].routes@,
        ensures
            after.routes(other) == before.routes(other),
    {
        if before.known(other) {
            let j = choose|j: int| before.slot(other, j);
            assert(after.slot(other, j)) by {
                assert(before.entries@[j].project == after.entries@[j].project);
                assert forall|k: int| 0 <= k < j implies after.entries@[k].project != other by {
                    assert(before.entries@[k].project == after.entries@[k].project);
                }
            }
            after.lemma_routes_at(other, j);
            before.lemma_routes_at(other, j);
        } else {
            assert forall|j: int| !after.slot(other, j) by {
                if after.slot(other, j) {
                    assert(before.entries@[j].project == after.entries@[j].project);
                    assert forall|k: int| 0 <= k < j implies before.entries@[k].project
                        != other by {
                        assert(before.entries@[k].project == after.entries@[k].project);
                    }
                    assert(before.slot(other, j));
                }
            }
        }
    }
}

/// The time at which a node was last seen is the same in two lists of
/// routes that name the same nodes in the same places and hold the route
/// to that node alike.
pub proof fn lemma_seen_frame(was: Seq<Route>, now: Seq<Route>, other: NodeId)
    requires
        was.len() == now.len(),
        forall|j: int| 0 <= j < was.len() ==> (#[trigger] was[j]).node == now[j].node,
        forall|j: int| 0 <= j < was.len() && was[j].node == other ==> #[trigger] was[j] == now[j],
    ensures
        find_first(now, to_node(other)) == find_first(was, to_node(other)),
        find_first(was, to_node(other)) matches Some(k) ==> now[k] == was[k],
{
    lemma_find_first(was, to_node(other));
    match find_first(was, to_node(other)) {
        Some(k) => {
            assert(is_first(now, to_node(other), k)) by {
                assert(was[k] == now[k]);
                assert forall|j: int| 0 <= j < k implies !to_node(other)(#[trigger] now[j]) by {
                    assert(was[j].node == now[j].node);
                }
            }
            lemma_found(now, to_node(other), k);
        },
        None => {
            assert forall|j: int| 0 <= j < now.len() implies !to_node(other)(#[trigger] now[j]) by {
                assert(was[j].node == now[j].node);
            }
            lemma_absent(now, to_node(other));
        },
    }
}

/// A route that is added at the end changes nothing for the other nodes.
pub proof fn lemma_seen_pushed(was: Seq<Route>, route: Route, other: NodeId)
    requires
        other != route.node,
    ensures
        find_first(was.push(route), to_node(other)) == find_first(was, to_node(other)),
        find_first(was, to_node(other)) matches Some(k) ==> was.push(route)[k] == was[k],
{
    let now = was.push(route);
    lemma_find_first(was, to_node(other));
    match find_first(was, to_node(other)) {
        Some(k) => {
            assert(is_first(now, to_node(other), k)) by {
                assert(was[k] == now[k]);
                assert forall|j: int| 0 <= j < k implies !to_node(other)(#[trigger] now[j]) by {
                    assert(was[j] == now[j]);
                }
            }
            lemma_found(now, to_node(other), k);
        },
        None => {
            assert forall|j: int| 0 <= j < now.len() implies !to_node(other)(#[trigger] now[j]) by {
                if j < was.len() {
                    assert(was[j] == now[j]);
                }
            }
            lemma_absent(now, to_node(other));
        },
    }
}

} // verus!
