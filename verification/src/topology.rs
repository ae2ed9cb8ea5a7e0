//! The cluster topology snapshot and token-aware statement routing.
//!
//! A snapshot holds the known nodes, each in its per-node lifecycle
//! state, and the token ring: positions in ascending token order,
//! each owned by a node. Routing prefers the node owning the
//! statement's partition-key token; when that node cannot serve, it
//! falls back to the first usable node, and fails fast with a
//! no-host error when none is usable. A snapshot is replaced
//! wholesale, never edited in place, so readers never observe a
//! half-updated topology.

use vstd::prelude::*;

verus! {

/// One node's lifecycle state in the pool.
#[derive(Debug, Clone, Copy, PartialEq, Eq, Structural)]
pub enum NodeState {
    Unknown,
    Connecting,
    Healthy,
    Degraded,
    Down,
}

/// What the reconnection loop observed for a node.
#[derive(Debug, Clone, Copy, PartialEq, Eq, Structural)]
pub enum NodeEvent {
    ConnectStarted,
    ConnectSucceeded,
    ConnectFailed,
    ConnectionLost,
    AllConnectionsLost,
}

/// The per-node state machine: unknown nodes are first connected;
/// a connected node is healthy; losing connections degrades it and
/// losing all of them takes it down; reconnection heals it.
pub open spec fn spec_next_node_state(s: NodeState, e: NodeEvent) -> NodeState {
    match (s, e) {
        (NodeState::Unknown, NodeEvent::ConnectStarted) => NodeState::Connecting,
        (NodeState::Down, NodeEvent::ConnectStarted) => NodeState::Connecting,
        (NodeState::Connecting, NodeEvent::ConnectSucceeded) => NodeState::Healthy,
        (NodeState::Connecting, NodeEvent::ConnectFailed) => NodeState::Down,
        (NodeState::Healthy, NodeEvent::ConnectionLost) => NodeState::Degraded,
        (NodeState::Healthy, NodeEvent::AllConnectionsLost) => NodeState::Down,
        (NodeState::Degraded, NodeEvent::ConnectSucceeded) => NodeState::Healthy,
        (NodeState::Degraded, NodeEvent::ConnectionLost) => NodeState::Degraded,
        (NodeState::Degraded, NodeEvent::AllConnectionsLost) => NodeState::Down,
        _ => s,
    }
}

/// Advances one node's state by one observation.
pub fn next_node_state(s: NodeState, e: NodeEvent) -> (r: NodeState)
    ensures
        r == spec_next_node_state(s, e),
{
    match (s, e) {
        (NodeState::Unknown, NodeEvent::ConnectStarted) => NodeState::Connecting,
        (NodeState::Down, NodeEvent::ConnectStarted) => NodeState::Connecting,
        (NodeState::Connecting, NodeEvent::ConnectSucceeded) => NodeState::Healthy,
        (NodeState::Connecting, NodeEvent::ConnectFailed) => NodeState::Down,
        (NodeState::Healthy, NodeEvent::ConnectionLost) => NodeState::Degraded,
        (NodeState::Healthy, NodeEvent::AllConnectionsLost) => NodeState::Down,
        (NodeState::Degraded, NodeEvent::ConnectSucceeded) => NodeState::Healthy,
        (NodeState::Degraded, NodeEvent::ConnectionLost) => NodeState::Degraded,
        (NodeState::Degraded, NodeEvent::AllConnectionsLost) => NodeState::Down,
        _ => s,
    }
}

/// Whether a node can serve a statement: it has at least one live
/// connection.
pub open spec fn usable(s: NodeState) -> bool {
    s is Healthy || s is Degraded
}

/// One known node.
#[derive(Debug, Clone, Copy, PartialEq, Eq, Structural)]
pub struct Node {
    pub id: u64,
    pub state: NodeState,
}

/// No usable node exists in the snapshot: the statement fails fast
/// rather than queueing indefinitely.
#[derive(Debug, Clone, Copy, PartialEq, Eq, Structural)]
pub struct NoHostAvailableError;

/// One topology snapshot: nodes, and the token ring as (ring
/// position, owning node index) in ascending position order.
#[derive(Debug)]
pub struct Topology {
    pub nodes: Vec<Node>,
    pub ring: Vec<(u64, usize)>,
}

/// The ring entry owning a token: the first position at or past the
/// token, wrapping to the first entry when the token lies past the
/// last position.
pub open spec fn owner_pos(ring: Seq<(u64, usize)>, token: u64) -> int
    decreases ring.len(),
{
    if ring.len() == 0 {
        0
    } else if ring[0].0 >= token {
        0
    } else {
        1 + owner_pos(ring.drop_first(), token)
    }
}

/// The index of the node owning a token, in a non-empty ring.
pub open spec fn owner_node(ring: Seq<(u64, usize)>, token: u64) -> usize {
    if owner_pos(ring, token) < ring.len() {
        ring[owner_pos(ring, token)].1
    } else {
        ring[0].1
    }
}

impl Topology {
    /// All ring entries name a known node.
    pub open spec fn wf(self) -> bool {
        forall|i: int| 0 <= i < self.ring@.len() ==> (#[trigger] self.ring@[i].1)
            < self.nodes@.len()
    }

    fn owner_scan(&self, token: u64, from: usize) -> (r: usize)
        requires
            from <= self.ring@.len(),
        ensures
            r == from + owner_pos(self.ring@.skip(from as int), token),
            r <= self.ring@.len(),
        decreases self.ring@.len() - from,
    {
        let ghost tail = self.ring@.skip(from as int);
        if from == self.ring.len() {
            return from;
        }
        proof {
            assert(tail[0] == self.ring@[from as int]);
            assert(tail.drop_first() =~= self.ring@.skip(from as int + 1));
        }
        if self.ring[from].0 >= token {
            from
        } else {
            self.owner_scan(token, from + 1)
        }
    }

    /// Selects the node to send a statement to, by its partition
    /// key's token: the owner when it is usable, else the first
    /// usable node; when no node is usable the statement fails
    /// fast with a no-host error.
    pub fn route(&self, token: u64) -> (r: Result<usize, NoHostAvailableError>)
        requires
            self.wf(),
        ensures
            r matches Ok(i) ==> (i as int) < self.nodes@.len() && usable(
                self.nodes@[i as int].state,
            ),
            self.ring@.len() > 0 && usable(
                self.nodes@[owner_node(self.ring@, token) as int].state,
            ) ==> r == Ok::<usize, NoHostAvailableError>(owner_node(self.ring@, token)),
            r is Err <==> forall|j: int|
                0 <= j < self.nodes@.len() ==> !usable(#[trigger] self.nodes@[j].state),
    {
        proof {
            assert(self.ring@.skip(0) =~= self.ring@);
        }
        if self.ring.len() > 0 {
            let pos = self.owner_scan(token, 0);
            let owner = if pos < self.ring.len() {
                self.ring[pos].1
            } else {
                self.ring[0].1
            };
            proof {
                assert(self.ring@[0].1 < self.nodes@.len());
                assert(owner == owner_node(self.ring@, token));
            }
            if matches!(self.nodes[owner].state, NodeState::Healthy | NodeState::Degraded) {
                return Ok(owner);
            }
        }
        let n = self.nodes.len();
        let mut j: usize = 0;
        while j < n
            invariant
                j <= n == self.nodes@.len(),
                self.ring@.len() > 0 ==> !usable(
                    self.nodes@[owner_node(self.ring@, token) as int].state,
                ),
                forall|k: int| 0 <= k < j ==> !usable(#[trigger] self.nodes@[k].state),
            decreases n - j,
        {
            if matches!(self.nodes[j].state, NodeState::Healthy | NodeState::Degraded) {
                return Ok(j);
            }
            j = j + 1;
        }
        Err(NoHostAvailableError)
    }
}

} // verus!
