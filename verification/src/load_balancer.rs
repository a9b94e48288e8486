use crate::node::NodeHealth;
use rand::seq::SliceRandom;
use std::sync::atomic::AtomicUsize;
use std::sync::atomic::Ordering;
use std::sync::Arc;
use vstd::prelude::*;

verus! {

/// The healthy nodes of a list, in list order.
pub open spec fn healthy_nodes(nodes: Seq<Arc<NodeHealth>>) -> Seq<Arc<NodeHealth>>
    decreases nodes.len(),
{
    if nodes.len() == 0 {
        Seq::empty()
    } else {
        let rest = healthy_nodes(nodes.drop_last());
        if nodes.last().healthy {
            rest.push(nodes.last())
        } else {
            rest
        }
    }
}

/// Every healthy node is a node of the list, and it is healthy.
pub proof fn lemma_healthy_nodes_sound(nodes: Seq<Arc<NodeHealth>>)
    ensures
        healthy_nodes(nodes).len() <= nodes.len(),
        forall|i: int|
            0 <= i < healthy_nodes(nodes).len() ==> (#[trigger] healthy_nodes(nodes)[i]).healthy
                && nodes.contains(healthy_nodes(nodes)[i]),
    decreases nodes.len(),
{
    if nodes.len() > 0 {
        lemma_healthy_nodes_sound(nodes.drop_last());
        let rest = healthy_nodes(nodes.drop_last());
        assert forall|i: int| 0 <= i < healthy_nodes(nodes).len() implies (#[trigger] healthy_nodes(
            nodes,
        )[i]).healthy && nodes.contains(healthy_nodes(nodes)[i]) by {
            if i < rest.len() {
                let k = choose|k: int| 0 <= k < nodes.drop_last().len() && nodes.drop_last()[k] == rest[i];
                assert(nodes[k] == rest[i]);
            } else {
                assert(nodes[nodes.len() - 1] == nodes.last());
            }
        }
    }
}

/// A list has a healthy node exactly when some node of it is healthy.
pub proof fn lemma_healthy_nodes_empty(nodes: Seq<Arc<NodeHealth>>)
    ensures
        healthy_nodes(nodes).len() == 0 <==> forall|i: int| 0 <= i < nodes.len() ==> !(#[trigger] nodes[i]).healthy,
    decreases nodes.len(),
{
    if nodes.len() > 0 {
        lemma_healthy_nodes_empty(nodes.drop_last());
        if healthy_nodes(nodes).len() == 0 {
            assert forall|i: int| 0 <= i < nodes.len() implies !(#[trigger] nodes[i]).healthy by {
                if i < nodes.len() - 1 {
                    assert(nodes.drop_last()[i] == nodes[i]);
                }
            }
        } else if forall|i: int| 0 <= i < nodes.len() ==> !(#[trigger] nodes[i]).healthy {
            assert forall|i: int| 0 <= i < nodes.drop_last().len() implies !(#[trigger] nodes.drop_last()[i]).healthy by {
                assert(nodes.drop_last()[i] == nodes[i]);
            }
            assert(!nodes[nodes.len() - 1].healthy);
        }
    }
}

/// The healthy nodes of a list, in list order.
pub fn collect_healthy(nodes: &[Arc<NodeHealth>]) -> (r: Vec<Arc<NodeHealth>>)
    ensures
        r@ == healthy_nodes(nodes@),
{
    let mut out: Vec<Arc<NodeHealth>> = Vec::new();
    let mut i: usize = 0;
    while i < nodes.len()
        invariant
            i <= nodes@.len(),
            out@ == healthy_nodes(nodes@.take(i as int)),
        decreases nodes@.len() - i,
    {
        assert(nodes@.take(i + 1).drop_last() =~= nodes@.take(i as int));
        if nodes[i].healthy {
            out.push(Arc::clone(&nodes[i]));
        }
        i = i + 1;
    }
    assert(nodes@.take(nodes@.len() as int) =~= nodes@);
    out
}

/// The node that a round-robin ticket lands on: the healthy nodes taken in turn.
pub open spec fn round_robin_pick(nodes: Seq<Arc<NodeHealth>>, ticket: usize) -> Option<
    Arc<NodeHealth>,
> {
    let healthy = healthy_nodes(nodes);
    if healthy.len() == 0 {
        None
    } else {
        Some(healthy[(ticket as int) % (healthy.len() as int)])
    }
}

/// The node that holds the fewest connections among the healthy nodes of the
/// first `n` of the list, the first such node on a tie; `loads[i]` is the
/// connection count of node `i`.
pub open spec fn least_loaded_upto(nodes: Seq<Arc<NodeHealth>>, loads: Seq<usize>, n: int) -> Option<
    int,
>
    decreases n,
{
    if n <= 0 {
        None
    } else {
        let before = least_loaded_upto(nodes, loads, n - 1);
        if !nodes[n - 1].healthy {
            before
        } else {
            match before {
                None => Some(n - 1),
                Some(j) => if loads[n - 1] < loads[j] {
                    Some(n - 1)
                } else {
                    before
                },
            }
        }
    }
}

/// The position of the healthy node with the fewest connections, the first one on a tie.
pub open spec fn least_loaded(nodes: Seq<Arc<NodeHealth>>, loads: Seq<usize>) -> Option<int> {
    least_loaded_upto(nodes, loads, nodes.len() as int)
}

/// What least-connections selection promises: it picks a healthy node whose
/// count is no larger than that of any healthy node and smaller than that of every
/// healthy node before it, and it picks none only when no node is healthy.
pub proof fn lemma_least_loaded_is_first_minimum(
    nodes: Seq<Arc<NodeHealth>>,
    loads: Seq<usize>,
    n: int,
)
    requires
        0 <= n <= nodes.len(),
        loads.len() == nodes.len(),
    ensures
        least_loaded_upto(nodes, loads, n) is None <==> forall|k: int|
            0 <= k < n ==> !(#[trigger] nodes[k]).healthy,
        least_loaded_upto(nodes, loads, n) matches Some(j) ==> {
            &&& 0 <= j < n
            &&& nodes[j].healthy
            &&& forall|k: int| 0 <= k < n && (#[trigger] nodes[k]).healthy ==> loads[j] <= loads[k]
            &&& forall|k: int| 0 <= k < j && (#[trigger] nodes[k]).healthy ==> loads[j] < loads[k]
        },
    decreases n,
{
    if n > 0 {
        lemma_least_loaded_is_first_minimum(nodes, loads, n - 1);
    }
}

/// Picks the node that a round-robin ticket lands on.
pub fn round_robin_choice(nodes: &[Arc<NodeHealth>], ticket: usize) -> (r: Option<Arc<NodeHealth>>)
    ensures
        r == round_robin_pick(nodes@, ticket),
{
    let healthy = collect_healthy(nodes);
    if healthy.len() == 0 {
        None
    } else {
        let index = ticket % healthy.len();
        Some(Arc::clone(&healthy[index]))
    }
}

/// Picks the healthy node with the fewest connections, the first one on a tie;
/// `loads[i]` is the connection count of node `i`.
pub fn least_connections_choice(nodes: &[Arc<NodeHealth>], loads: &Vec<usize>) -> (r: Option<
    Arc<NodeHealth>,
>)
    requires
        loads@.len() == nodes@.len(),
    ensures
        r == (match least_loaded(nodes@, loads@) {
            Some(j) => Some(nodes@[j]),
            None => None,
        }),
{
    let mut best: Option<usize> = None;
    let mut i: usize = 0;
    while i < nodes.len()
        invariant
            i <= nodes@.len(),
            loads@.len() == nodes@.len(),
            (match best {
                Some(j) => Some(j as int),
                None => None::<int>,
            }) == least_loaded_upto(nodes@, loads@, i as int),
            best matches Some(j) ==> j < i,
        decreases nodes@.len() - i,
    {
        if nodes[i].healthy {
            match best {
                None => {
                    best = Some(i);
                },
                Some(j) => {
                    if loads[i] < loads[j] {
                        best = Some(i);
                    }
                },
            }
        }
        i = i + 1;
    }
    match best {
        Some(j) => Some(Arc::clone(&nodes[j])),
        None => None,
    }
}

/// Calls `SliceRandom::choose` from `rand` with the thread-local generator and
/// clones the chosen `Arc`. Claimed, from its source: it returns `None` exactly
/// when the slice is empty, and otherwise one of the slice's elements. Which one
/// is left to chance, and nothing is claimed of it.
#[verifier::external_body]
fn choose_node(nodes: &[Arc<NodeHealth>]) -> (r: Option<Arc<NodeHealth>>)
    ensures
        r is None <==> nodes@.len() == 0,
        r matches Some(n) ==> nodes@.contains(n),
{
    nodes.choose(&mut rand::thread_rng()).cloned()
}

/// A way of choosing the node that serves a request.
pub trait LoadBalancingStrategy {
    /// Chooses a healthy node of the list, or none when no node is healthy.
    fn select_node(&self, nodes: &[Arc<NodeHealth>]) -> (r: Option<Arc<NodeHealth>>)
        ensures
            r is None <==> healthy_nodes(nodes@).len() == 0,
            r matches Some(n) ==> healthy_nodes(nodes@).contains(n),
    ;
}

/// Takes the next ticket from a shared counter.
fn draw_ticket(counter: &AtomicUsize) -> usize {
    counter.fetch_add(1, Ordering::SeqCst)
}

/// A round-robin pick is one of the healthy nodes.
pub proof fn lemma_round_robin_pick_healthy(nodes: Seq<Arc<NodeHealth>>, ticket: usize)
    ensures
        round_robin_pick(nodes, ticket) matches Some(n) ==> healthy_nodes(nodes).contains(n),
{
    let healthy = healthy_nodes(nodes);
    if healthy.len() > 0 {
        let i = (ticket as int) % (healthy.len() as int);
        assert(healthy[i] == round_robin_pick(nodes, ticket)->0);
    }
}

/// Takes the healthy nodes in turn.
pub struct RoundRobin {
    next: AtomicUsize,
}

impl RoundRobin {
    /// A round-robin whose first ticket is 0.
    pub fn new() -> Self {
        RoundRobin { next: AtomicUsize::new(0) }
    }
}

impl LoadBalancingStrategy for RoundRobin {
    /// Draws the next ticket (shared by all threads) and picks the healthy node it
    /// lands on; no ticket is drawn when no node is healthy.
    fn select_node(&self, nodes: &[Arc<NodeHealth>]) -> (r: Option<Arc<NodeHealth>>)
        ensures
            r is None <==> healthy_nodes(nodes@).len() == 0,
            r matches Some(n) ==> healthy_nodes(nodes@).contains(n),
            r is Some ==> exists|ticket: usize| r == #[trigger] round_robin_pick(nodes@, ticket),
    {
        let healthy = collect_healthy(nodes);
        if healthy.len() == 0 {
            return None;
        }
        let ticket = draw_ticket(&self.next);
        let r = round_robin_choice(nodes, ticket);
        proof {
            lemma_round_robin_pick_healthy(nodes@, ticket);
        }
        r
    }
}

/// Takes the healthy node with the fewest connections in flight.
pub struct LeastConnections;

impl LoadBalancingStrategy for LeastConnections {
    /// Reads the connection count of each healthy node once, in list order, and
    /// picks the first healthy node with the smallest count read.
    fn select_node(&self, nodes: &[Arc<NodeHealth>]) -> (r: Option<Arc<NodeHealth>>)
        ensures
            r is None <==> healthy_nodes(nodes@).len() == 0,
            r matches Some(n) ==> healthy_nodes(nodes@).contains(n),
            exists|loads: Seq<usize>|
                loads.len() == nodes@.len() && r == (match #[trigger] least_loaded(nodes@, loads) {
                    Some(j) => Some(nodes@[j]),
                    None => None,
                }),
    {
        let mut loads: Vec<usize> = Vec::new();
        let mut i: usize = 0;
        while i < nodes.len()
            invariant
                i <= nodes@.len(),
                loads@.len() == i,
            decreases nodes@.len() - i,
        {
            if nodes[i].healthy {
                loads.push(nodes[i].get_connections());
            } else {
                loads.push(0);
            }
            i = i + 1;
        }
        let r = least_connections_choice(nodes, &loads);
        proof {
            lemma_least_loaded_is_first_minimum(nodes@, loads@, nodes@.len() as int);
            lemma_healthy_nodes_empty(nodes@);
            lemma_healthy_in_list(nodes@);
        }
        r
    }
}

/// A healthy node of the list is one of its healthy nodes.
pub proof fn lemma_healthy_in_list(nodes: Seq<Arc<NodeHealth>>)
    ensures
        forall|k: int| 0 <= k < nodes.len() && (#[trigger] nodes[k]).healthy ==> healthy_nodes(nodes).contains(nodes[k]),
    decreases nodes.len(),
{
    if nodes.len() > 0 {
        lemma_healthy_in_list(nodes.drop_last());
        let rest = healthy_nodes(nodes.drop_last());
        assert forall|k: int| 0 <= k < nodes.len() && (#[trigger] nodes[k]).healthy implies healthy_nodes(nodes).contains(nodes[k]) by {
            if k < nodes.len() - 1 {
                assert(nodes.drop_last()[k] == nodes[k]);
                let m = choose|m: int| 0 <= m < rest.len() && rest[m] == nodes[k];
                assert(healthy_nodes(nodes)[m] == nodes[k]);
            } else {
                assert(healthy_nodes(nodes)[healthy_nodes(nodes).len() - 1] == nodes[k]);
            }
        }
    }
}

/// Takes a healthy node at random.
pub struct RandomSelection;

impl LoadBalancingStrategy for RandomSelection {
    fn select_node(&self, nodes: &[Arc<NodeHealth>]) -> (r: Option<Arc<NodeHealth>>) {
        let healthy = collect_healthy(nodes);
        choose_node(healthy.as_slice())
    }
}


/// The load-balancing strategies that a chain can be configured with.
#[derive(Clone, Copy, Debug, PartialEq, Eq, Structural)]
pub enum StrategyType {
    RoundRobin,
    LeastConnections,
    Random,
}

/// A load balancer of one of the three strategies.
pub enum Balancer {
    RoundRobin(RoundRobin),
    LeastConnections(LeastConnections),
    Random(RandomSelection),
}

/// The strategy that a balancer follows.
pub open spec fn strategy_of(b: Balancer) -> StrategyType {
    match b {
        Balancer::RoundRobin(_) => StrategyType::RoundRobin,
        Balancer::LeastConnections(_) => StrategyType::LeastConnections,
        Balancer::Random(_) => StrategyType::Random,
    }
}

impl StrategyType {
    /// A fresh balancer that follows this strategy.
    pub fn create_strategy(&self) -> (r: Balancer)
        ensures
            strategy_of(r) == *self,
    {
        match self {
            StrategyType::RoundRobin => Balancer::RoundRobin(RoundRobin::new()),
            StrategyType::LeastConnections => Balancer::LeastConnections(LeastConnections),
            StrategyType::Random => Balancer::Random(RandomSelection),
        }
    }
}

impl LoadBalancingStrategy for Balancer {
    /// Selects as the balancer's strategy does.
    fn select_node(&self, nodes: &[Arc<NodeHealth>]) -> (r: Option<Arc<NodeHealth>>)
        ensures
            (strategy_of(*self) == StrategyType::RoundRobin && r is Some) ==> exists|ticket: usize|
                r == #[trigger] round_robin_pick(nodes@, ticket),
            strategy_of(*self) == StrategyType::LeastConnections ==> exists|loads: Seq<usize>|
                loads.len() == nodes@.len() && r == (match #[trigger] least_loaded(nodes@, loads) {
                    Some(j) => Some(nodes@[j]),
                    None => None,
                }),
    {
        match self {
            Balancer::RoundRobin(b) => b.select_node(nodes),
            Balancer::LeastConnections(b) => b.select_node(nodes),
            Balancer::Random(b) => b.select_node(nodes),
        }
    }
}

impl From<Balancer> for StrategyType {
    /// The strategy that a balancer follows.
    fn from(strategy: Balancer) -> (r: StrategyType) {
        match strategy {
            Balancer::RoundRobin(_) => StrategyType::RoundRobin,
            Balancer::LeastConnections(_) => StrategyType::LeastConnections,
            Balancer::Random(_) => StrategyType::Random,
        }
    }
}

impl vstd::std_specs::convert::FromSpecImpl<Balancer> for StrategyType {
    open spec fn obeys_from_spec() -> bool {
        true
    }

    open spec fn from_spec(v: Balancer) -> StrategyType {
        strategy_of(v)
    }
}

/// A balancer made for a strategy converts back to that strategy.
pub proof fn lemma_strategy_round_trip(t: StrategyType, b: Balancer)
    requires
        strategy_of(b) == t,
    ensures
        <StrategyType as vstd::std_specs::convert::FromSpec<Balancer>>::from_spec(b) == t,
{
}

/// Round robin goes in circular order: the ticket after one that lands on the
/// `k`-th healthy node lands on the next healthy node, wrapping around after the last.
pub proof fn lemma_round_robin_next(nodes: Seq<Arc<NodeHealth>>, ticket: usize)
    requires
        healthy_nodes(nodes).len() > 0,
        ticket < usize::MAX,
    ensures
        round_robin_pick(nodes, (ticket + 1) as usize) == Some(
            healthy_nodes(nodes)[((ticket as int) % (healthy_nodes(nodes).len() as int) + 1) % (healthy_nodes(nodes).len() as int)],
        ),
{
    let h = healthy_nodes(nodes).len() as int;
    let t = ticket as int;
    vstd::arithmetic::div_mod::lemma_add_mod_noop(t, 1, h);
    vstd::arithmetic::div_mod::lemma_add_mod_noop_right(t % h, 1, h);
    assert((t + 1) % h == (t % h + 1) % h);
}

/// Round robin is fair: within any run of as many consecutive tickets as there are
/// healthy nodes, every healthy node is picked.
pub proof fn lemma_round_robin_covers_all(nodes: Seq<Arc<NodeHealth>>, ticket: usize, k: int)
    requires
        0 <= k < healthy_nodes(nodes).len(),
        ticket + healthy_nodes(nodes).len() - 1 <= usize::MAX,
    ensures
        exists|j: int|
            0 <= j < healthy_nodes(nodes).len() && #[trigger] round_robin_pick(nodes, (ticket + j) as usize)
                == Some(healthy_nodes(nodes)[k]),
{
    let h = healthy_nodes(nodes).len() as int;
    let t = ticket as int;
    let r = t % h;
    let q = t / h;
    let j = if k >= r { k - r } else { k - r + h };
    assert(t == q * h + r && 0 <= r < h) by (nonlinear_arith)
        requires
            h > 0,
            r == t % h,
            q == t / h,
    ;
    assert((t + j) % h == k) by (nonlinear_arith)
        requires
            h > 0,
            t == q * h + r,
            0 <= r < h,
            0 <= k < h,
            j == (if k >= r { k - r } else { k - r + h }),
    {
        if k >= r {
            assert(t + j == q * h + k);
        } else {
            assert(t + j == (q + 1) * h + k);
        }
    }
    assert(round_robin_pick(nodes, (ticket + j) as usize) == Some(healthy_nodes(nodes)[k]));
}

} // verus!
