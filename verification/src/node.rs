use std::sync::atomic::AtomicUsize;
use std::sync::atomic::Ordering;
use std::sync::Arc;
use vstd::prelude::*;

verus! {

/// Calls `chrono::Utc::now` and converts the instant with `DateTime::timestamp_micros`.
/// Nothing is claimed of the result: it is the clock's reading, in microseconds
/// since the Unix epoch. (`Utc::now` panics when the system clock reads a time
/// before the epoch.)
#[verifier::external_body]
fn now_micros() -> i64 {
    chrono::Utc::now().timestamp_micros()
}

/// One upstream RPC node, as last checked.
#[derive(Clone)]
pub struct NodeHealth {
    pub url: String,
    pub healthy: bool,
    /// When the node was last checked, in microseconds since the Unix epoch.
    pub last_check: i64,
    /// Requests in flight to this node; every clone of the node shares the counter.
    pub connections: Arc<AtomicUsize>,
}

impl NodeHealth {
    /// A node at `url` with the given health and no open connections.
    pub fn new(url: String, healthy: bool) -> (r: NodeHealth)
        ensures
            r.url@ == url@,
            r.healthy == healthy,
    {
        NodeHealth {
            url,
            healthy,
            last_check: now_micros(),
            connections: Arc::new(AtomicUsize::new(0)),
        }
    }

    /// Counts one more connection in flight; returns the count before.
    /// The count is shared with every clone of this node and with other threads,
    /// so nothing is claimed of the value read.
    pub fn increment_connections(&self) -> usize {
        self.connections.fetch_add(1, Ordering::SeqCst)
    }

    /// Counts one connection fewer; returns the count before (the count wraps
    /// below zero as `AtomicUsize::fetch_sub` does).
    pub fn decrement_connections(&self) -> usize {
        self.connections.fetch_sub(1, Ordering::SeqCst)
    }

    /// The number of connections in flight, as read now.
    pub fn get_connections(&self) -> usize {
        self.connections.load(Ordering::SeqCst)
    }

    /// Records the outcome of a health check taken now.
    pub fn update_health(&mut self, healthy: bool)
        ensures
            final(self).healthy == healthy,
            final(self).url == old(self).url,
            final(self).connections == old(self).connections,
    {
        self.healthy = healthy;
        self.last_check = now_micros();
    }
}

/// The nodes that serve one chain, in configuration order.
pub struct NodeList {
    pub nodes: Vec<Arc<NodeHealth>>,
}

impl NodeList {
    /// Fresh healthy nodes, one per URL, in the given order.
    pub fn new(nodes: Vec<String>) -> (r: NodeList)
        ensures
            r.nodes@.len() == nodes@.len(),
            forall|i: int|
                0 <= i < nodes@.len() ==> (#[trigger] r.nodes@[i]).url@ == nodes@[i]@
                    && r.nodes@[i].healthy,
    {
        let mut out: Vec<Arc<NodeHealth>> = Vec::new();
        let mut i: usize = 0;
        while i < nodes.len()
            invariant
                i <= nodes@.len(),
                out@.len() == i,
                forall|j: int|
                    0 <= j < i ==> (#[trigger] out@[j]).url@ == nodes@[j]@ && out@[j].healthy,
            decreases nodes@.len() - i,
        {
            let url = nodes[i].clone();
            out.push(Arc::new(NodeHealth::new(url, true)));
            i = i + 1;
        }
        NodeList { nodes: out }
    }

    /// The nodes of this list re-created with the outcomes of a fresh round of
    /// health checks: node `i` keeps its URL and takes health `results[i]`, with
    /// no connections counted.
    pub fn with_health_results(&self, results: &Vec<bool>) -> (r: NodeList)
        requires
            results@.len() == self.nodes@.len(),
        ensures
            r.nodes@.len() == self.nodes@.len(),
            forall|i: int|
                0 <= i < self.nodes@.len() ==> (#[trigger] r.nodes@[i]).url@ == self.nodes@[i].url@
                    && r.nodes@[i].healthy == results@[i],
    {
        let mut out: Vec<Arc<NodeHealth>> = Vec::new();
        let mut i: usize = 0;
        while i < self.nodes.len()
            invariant
                i <= self.nodes@.len(),
                results@.len() == self.nodes@.len(),
                out@.len() == i,
                forall|j: int|
                    0 <= j < i ==> (#[trigger] out@[j]).url@ == self.nodes@[j].url@
                        && out@[j].healthy == results@[j],
            decreases self.nodes@.len() - i,
        {
            let url = self.nodes[i].url.clone();
            out.push(Arc::new(NodeHealth::new(url, results[i])));
            i = i + 1;
        }
        NodeList { nodes: out }
    }

    /// The given nodes, in the given order.
    pub fn new_with_health(nodes: Vec<NodeHealth>) -> (r: NodeList)
        ensures
            r.nodes@.len() == nodes@.len(),
            forall|i: int| 0 <= i < nodes@.len() ==> *(#[trigger] r.nodes@[i]) == nodes@[i],
    {
        let mut out: Vec<Arc<NodeHealth>> = Vec::new();
        let mut rest = nodes;
        let ghost all = rest@;
        let mut taken: Vec<NodeHealth> = Vec::new();
        // Take the nodes from the back, then restore their order.
        while rest.len() > 0
            invariant
                all == rest@ + taken@.reverse(),
            decreases rest@.len(),
        {
            let n = rest.pop().unwrap();
            let ghost before = taken@;
            taken.push(n);
            assert(taken@.reverse() =~= seq![n] + before.reverse());
        }
        assert(taken@.reverse() =~= all);
        let ghost rev = taken@;
        while taken.len() > 0
            invariant
                rev.reverse() == all,
                taken@ == rev.subrange(0, taken@.len() as int),
                taken@.len() <= rev.len(),
                out@.len() == rev.len() - taken@.len(),
                forall|j: int| 0 <= j < out@.len() ==> *(#[trigger] out@[j]) == all[j],
            decreases taken@.len(),
        {
            let n = taken.pop().unwrap();
            out.push(Arc::new(n));
        }
        NodeList { nodes: out }
    }
}

} // verus!
