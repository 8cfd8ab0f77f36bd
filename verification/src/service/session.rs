//! Peer sessions.

use crate::clock::LocalTime;
use crate::git::Url;
use crate::identity::Id;
use crate::net::{IpAddr, Link, SocketAddr};
use crate::service::message::{Address, NodeId, Subscribe};
use vstd::prelude::*;

verus! {

/// Why the messages of a peer are no longer processed.
#[derive(Debug, Copy, Clone, PartialEq, Eq, Structural)]
pub enum SessionError {
    /// There is no session with that peer.
    NotFound(IpAddr),
    /// The message belongs to another network.
    WrongMagic(u32),
    /// The peer speaks another version of the protocol.
    WrongVersion(u32),
    /// The message carries a time that is too far from the local time.
    InvalidTimestamp(u64),
    /// The peer broke the rules of the protocol.
    Misbehavior,
}

/// How far a session has come.
#[derive(Debug)]
pub enum SessionState {
    /// The transport is connected and the peer has not said who it is.
    Initial,
    /// The peer has said who it is.
    Negotiated { id: NodeId, since: LocalTime, addrs: Vec<Address>, git: Url },
    /// The session has ended.
    Disconnected { since: LocalTime },
}

impl SessionState {
    /// The place of a state in the life of a session: a session only moves
    /// to later places.
    pub open spec fn rank(self) -> nat {
        match self {
            SessionState::Initial => 0,
            SessionState::Negotiated { .. } => 1,
            SessionState::Disconnected { .. } => 2,
        }
    }

    /// Whether a session in state `self` may be in state `next` after one
    /// input: it keeps its state, it completes the handshake from the
    /// initial state, or it ends.
    pub open spec fn may_become(self, next: SessionState) -> bool {
        ||| next == self
        ||| (self is Initial && next is Negotiated)
        ||| next is Disconnected
    }
}

/// What a session may become in two inputs it may become in one: the
/// states of a session form a path that is walked in one direction.
pub proof fn lemma_may_become_transitive(a: SessionState, b: SessionState, c: SessionState)
    requires
        a.may_become(b),
        b.may_become(c),
    ensures
        a.may_become(c),
{
}

/// A peer session.
#[derive(Debug)]
pub struct Session {
    /// The address of the peer.
    pub addr: SocketAddr,
    /// Which side opened the connection.
    pub link: Link,
    /// Whether to reconnect to the peer when the connection is lost.
    pub persistent: bool,
    /// How far the session has come.
    pub state: SessionState,
    /// What the peer has subscribed to.
    pub subscribe: Option<Subscribe>,
    /// How many times a connection was attempted since the last success.
    pub attempts: usize,
}

impl Session {
    /// A session in its initial state: nothing was heard of the peer, and
    /// no connection was attempted.
    pub open spec fn fresh(addr: SocketAddr, link: Link, persistent: bool) -> Session {
        Session {
            addr,
            link,
            persistent,
            state: SessionState::Initial,
            subscribe: None,
            attempts: 0,
        }
    }

    /// A session in its initial state.
    pub fn new(addr: SocketAddr, link: Link, persistent: bool) -> (s: Session)
        ensures
            s == Self::fresh(addr, link, persistent),
    {
        Session { addr, link, persistent, state: SessionState::Initial, subscribe: None, attempts: 0 }
    }

    /// The IP address of the peer.
    pub fn ip(&self) -> (ip: IpAddr)
        ensures
            ip == self.addr.ip,
    {
        self.addr.ip
    }

    /// Whether the peer has completed the handshake.
    pub fn is_negotiated(&self) -> (r: bool)
        ensures
            r == self.state is Negotiated,
    {
        match self.state {
            SessionState::Negotiated { .. } => true,
            _ => false,
        }
    }

    /// How many times a connection was attempted since the last success.
    pub fn attempts(&self) -> (n: usize)
        ensures
            n == self.attempts,
    {
        self.attempts
    }

    /// Count a connection attempt. The count stops at the largest number
    /// that it can hold.
    pub fn attempted(&mut self)
        ensures
            final(self).attempts == if old(self).attempts < usize::MAX {
                old(self).attempts + 1
            } else {
                usize::MAX as int
            },
            final(self).addr == old(self).addr,
            final(self).link == old(self).link,
            final(self).persistent == old(self).persistent,
            final(self).state == old(self).state,
            final(self).subscribe == old(self).subscribe,
    {
        if self.attempts < usize::MAX {
            self.attempts = self.attempts + 1;
        }
    }

    /// Note that the connection stands: the attempts start from zero again.
    pub fn connected(&mut self, _link: Link)
        ensures
            final(self).attempts == 0,
            final(self).addr == old(self).addr,
            final(self).link == old(self).link,
            final(self).persistent == old(self).persistent,
            final(self).state == old(self).state,
            final(self).subscribe == old(self).subscribe,
    {
        self.attempts = 0;
    }

    /// Whether the peer has asked for the announcements of `project`.
    pub open spec fn wants(self, project: Id) -> bool {
        self.subscribe matches Some(s) && s.filter@.contains(project)
    }

    /// Whether the peer has asked for the announcements of `project`. A peer
    /// that has not subscribed wants none.
    pub fn subscribed_to(&self, project: &Id) -> (r: bool)
        ensures
            r == self.wants(*project),
    {
        match &self.subscribe {
            Some(s) => s.filter.contains(project),
            None => false,
        }
    }
}

/// The number of times that a session completes the handshake in a run of
/// states: the places where an initial state is followed by a negotiated one.
pub open spec fn negotiations(run: Seq<SessionState>) -> nat
    decreases run.len(),
{
    if run.len() < 2 {
        0
    } else {
        negotiations(run.drop_last()) + if run[run.len() - 2] is Initial && run.last()
            is Negotiated {
            1nat
        } else {
            0nat
        }
    }
}

/// Whether each state of a run may follow the one before it.
pub open spec fn lawful(run: Seq<SessionState>) -> bool {
    forall|i: int| 0 <= i < run.len() - 1 ==> (#[trigger] run[i]).may_become(run[i + 1])
}

/// In a lawful run the states never go back.
pub proof fn lemma_rank_grows(run: Seq<SessionState>, i: int, j: int)
    requires
        lawful(run),
        0 <= i <= j < run.len(),
    ensures
        run[i].rank() <= run[j].rank(),
    decreases j - i,
{
    if i < j {
        lemma_rank_grows(run, i, j - 1);
        assert(run[j - 1].may_become(run[j - 1 + 1]));
    }
}

/// A session completes the handshake at most once, whatever inputs it is
/// given; and exactly once if it starts in the initial state and is ever
/// seen negotiated.
pub proof fn lemma_negotiates_once(run: Seq<SessionState>)
    requires
        lawful(run),
    ensures
        negotiations(run) <= 1,
        negotiations(run) == 1 ==> run.last().rank() >= 1,
        run.len() > 0 && run[0] is Initial && (exists|i: int|
            0 <= i < run.len() && run[i] is Negotiated) ==> negotiations(run) == 1,
    decreases run.len(),
{
    if run.len() >= 2 {
        let front = run.drop_last();
        assert(lawful(front)) by {
            assert forall|i: int| 0 <= i < front.len() - 1 implies (#[trigger] front[i]).may_become(
                front[i + 1],
            ) by {
                assert(run[i].may_become(run[i + 1]));
            }
        }
        lemma_negotiates_once(front);
        let n = run.len() as int;
        assert(run[n - 2].may_become(run[n - 2 + 1]));
        assert(front.last() == run[n - 2]);
        if run[0] is Initial && (exists|i: int| 0 <= i < run.len() && run[i] is Negotiated) {
            let i = choose|i: int| 0 <= i < run.len() && run[i] is Negotiated;
            assert(front[0] == run[0]);
            if i < n - 1 {
                assert(front[i] is Negotiated);
            } else {
                if !(run[n - 2] is Initial) {
                    // The state before the last is negotiated too, or the
                    // run would have gone back.
                    lemma_rank_grows(run, 0, n - 2);
                    assert(run[n - 2] is Negotiated);
                    assert(front[n - 2] is Negotiated);
                } else {
                    // No handshake before the last step: a negotiated state
                    // in the front would have to stay.
                    if negotiations(front) == 1 {
                        assert(front.last().rank() >= 1);
                    }
                }
            }
        }
    }
}

} // verus!
