use bunsan::load_balancer::{
    collect_healthy, least_connections_choice, round_robin_choice, Balancer, LeastConnections,
    LoadBalancingStrategy, RandomSelection, RoundRobin, StrategyType,
};
use bunsan::node::{NodeHealth, NodeList};
use std::sync::Arc;

fn nodes(spec: &[(&str, bool)]) -> Vec<Arc<NodeHealth>> {
    spec.iter().map(|(u, h)| Arc::new(NodeHealth::new(u.to_string(), *h))).collect()
}

#[test]
fn round_robin_cycles_through_healthy_nodes() {
    let ns = nodes(&[("a", true), ("b", false), ("c", true), ("d", true)]);
    let rr = RoundRobin::new();
    let picked: Vec<String> = (0..7).map(|_| rr.select_node(&ns).unwrap().url.clone()).collect();
    assert_eq!(picked, vec!["a", "c", "d", "a", "c", "d", "a"]);
}

#[test]
fn round_robin_without_healthy_nodes() {
    let ns = nodes(&[("a", false), ("b", false)]);
    let rr = RoundRobin::new();
    assert!(rr.select_node(&ns).is_none());
    assert!(rr.select_node(&[]).is_none());
}

#[test]
fn round_robin_choice_by_ticket() {
    let ns = nodes(&[("a", true), ("b", false), ("c", true)]);
    assert_eq!(round_robin_choice(&ns, 0).unwrap().url, "a");
    assert_eq!(round_robin_choice(&ns, 1).unwrap().url, "c");
    assert_eq!(round_robin_choice(&ns, 2).unwrap().url, "a");
    assert_eq!(round_robin_choice(&ns, usize::MAX).unwrap().url, "c");
}

#[test]
fn round_robin_is_fair_over_a_cycle() {
    let ns = nodes(&[("a", true), ("b", true), ("c", false), ("d", true)]);
    for start in 0..5usize {
        let mut seen: Vec<String> = (start..start + 3)
            .map(|t| round_robin_choice(&ns, t).unwrap().url.clone())
            .collect();
        seen.sort();
        assert_eq!(seen, vec!["a", "b", "d"]);
    }
}

#[test]
fn least_connections_picks_the_least_loaded_healthy_node() {
    let ns = nodes(&[("a", true), ("b", true), ("c", false), ("d", true)]);
    ns[0].increment_connections();
    ns[0].increment_connections();
    ns[1].increment_connections();
    ns[3].increment_connections();
    // b and d tie at one connection: the first wins.
    assert_eq!(LeastConnections.select_node(&ns).unwrap().url, "b");
    ns[1].increment_connections();
    assert_eq!(LeastConnections.select_node(&ns).unwrap().url, "d");
}

#[test]
fn least_connections_ignores_unhealthy_nodes() {
    let ns = nodes(&[("a", false), ("b", true)]);
    ns[1].increment_connections();
    assert_eq!(LeastConnections.select_node(&ns).unwrap().url, "b");
    assert!(LeastConnections.select_node(&nodes(&[("a", false)])).is_none());
}

#[test]
fn least_connections_choice_from_counts() {
    let ns = nodes(&[("a", true), ("b", false), ("c", true), ("d", true)]);
    assert_eq!(least_connections_choice(&ns, &vec![3, 0, 2, 2]).unwrap().url, "c");
    assert_eq!(least_connections_choice(&ns, &vec![1, 0, 2, 1]).unwrap().url, "a");
    assert!(least_connections_choice(&[], &vec![]).is_none());
}

#[test]
fn random_selection_picks_a_healthy_node() {
    let ns = nodes(&[("a", false), ("b", true), ("c", false), ("d", true)]);
    for _ in 0..50 {
        let url = RandomSelection.select_node(&ns).unwrap().url.clone();
        assert!(url == "b" || url == "d");
    }
    assert!(RandomSelection.select_node(&nodes(&[("a", false)])).is_none());
}

#[test]
fn collect_healthy_keeps_order() {
    let ns = nodes(&[("a", true), ("b", false), ("c", true)]);
    let h: Vec<String> = collect_healthy(&ns).iter().map(|n| n.url.clone()).collect();
    assert_eq!(h, vec!["a", "c"]);
}

#[test]
fn strategy_round_trip() {
    for t in [StrategyType::RoundRobin, StrategyType::LeastConnections, StrategyType::Random] {
        let b: Balancer = t.create_strategy();
        assert_eq!(StrategyType::from(b), t);
    }
}

#[test]
fn balancer_dispatches_to_its_strategy() {
    let ns = nodes(&[("a", true), ("b", true)]);
    let b = StrategyType::RoundRobin.create_strategy();
    assert_eq!(b.select_node(&ns).unwrap().url, "a");
    assert_eq!(b.select_node(&ns).unwrap().url, "b");
}

#[test]
fn connection_counter_counts() {
    let n = NodeHealth::new("a".to_string(), true);
    assert_eq!(n.get_connections(), 0);
    assert_eq!(n.increment_connections(), 0);
    assert_eq!(n.increment_connections(), 1);
    assert_eq!(n.decrement_connections(), 2);
    assert_eq!(n.get_connections(), 1);
    let c = n.clone();
    c.increment_connections();
    assert_eq!(n.get_connections(), 2);
}

#[test]
fn new_node_records_the_check_time() {
    let n = NodeHealth::new("a".to_string(), false);
    assert!(n.last_check > 1_600_000_000_000_000);
    assert!(!n.healthy);
}

#[test]
fn update_health_sets_health() {
    let mut n = NodeHealth::new("a".to_string(), true);
    let before = n.last_check;
    n.update_health(false);
    assert!(!n.healthy);
    assert!(n.last_check >= before);
}

#[test]
fn node_lists() {
    let l = NodeList::new(vec!["x".to_string(), "y".to_string()]);
    assert_eq!(l.nodes.len(), 2);
    assert_eq!(l.nodes[1].url, "y");
    assert!(l.nodes.iter().all(|n| n.healthy));
    let r = l.with_health_results(&vec![false, true]);
    assert_eq!(r.nodes[0].url, "x");
    assert!(!r.nodes[0].healthy);
    assert!(r.nodes[1].healthy);
    let w = NodeList::new_with_health(vec![
        NodeHealth::new("p".to_string(), false),
        NodeHealth::new("q".to_string(), true),
    ]);
    assert_eq!(w.nodes[0].url, "p");
    assert!(!w.nodes[0].healthy);
    assert_eq!(w.nodes[1].url, "q");
}
