use bunsan::config::ChainConfig;
use bunsan::load_balancer::StrategyType;
use bunsan::node::NodeList;
use bunsan::server::{
    build_chain_nodes, build_load_balancers, chain_health, extract_path_params, match_path,
    parse_fields, route_method, select_upstream, Chain, RouteError, RouteMethod,
};
use std::collections::HashMap;
use std::sync::Arc;

fn pairs(v: &[(&str, &str)]) -> Vec<(String, String)> {
    v.iter().map(|(a, b)| (a.to_string(), b.to_string())).collect()
}

#[test]
fn match_path_binds_parameters() {
    assert_eq!(
        match_path("/balance/{address}/{block}", "/balance/0xabc/latest"),
        Some(pairs(&[("address", "0xabc"), ("block", "latest")]))
    );
}

#[test]
fn match_path_fixed_segments_must_agree() {
    assert_eq!(match_path("/balance/{address}", "/nonce/0xabc"), None);
    assert_eq!(match_path("/a/b", "/a/b"), Some(vec![]));
}

#[test]
fn match_path_segment_counts_must_agree() {
    assert_eq!(match_path("/a/{x}", "/a/1/2"), None);
    assert_eq!(match_path("/a/{x}", "/a"), None);
}

#[test]
fn match_path_edge_segments() {
    assert_eq!(match_path("{}", "anything"), Some(pairs(&[("", "anything")])));
    assert_eq!(match_path("{", "{"), Some(vec![]));
    assert_eq!(match_path("{", "x"), None);
    assert_eq!(match_path("", ""), Some(vec![]));
    assert_eq!(match_path("/{id}", "/"), Some(pairs(&[("id", "")])));
}

#[test]
fn repeated_parameter_binds_twice() {
    let b = match_path("/{x}/{x}", "/1/2").unwrap();
    assert_eq!(b, pairs(&[("x", "1"), ("x", "2")]));
    let m: HashMap<String, String> = b.into_iter().collect();
    assert_eq!(m.get("x").map(|s| s.as_str()), Some("2"));
}

#[test]
fn route_matches_itself() {
    for r in ["", "/", "/a/{b}/c", "{x}", "//"] {
        assert!(match_path(r, r).is_some());
    }
}

#[test]
fn extract_path_params_is_empty_on_mismatch() {
    assert_eq!(extract_path_params("/a/{x}", "/b/1"), vec![]);
    assert_eq!(extract_path_params("/a/{x}", "/a/1"), pairs(&[("x", "1")]));
}

#[test]
fn fields_are_split_at_commas() {
    assert_eq!(
        parse_fields(Some("hash,from,to")),
        vec!["hash".to_string(), "from".to_string(), "to".to_string()]
    );
    assert_eq!(parse_fields(Some("")), vec!["".to_string()]);
    assert_eq!(parse_fields(Some("a,,b")), vec!["a".to_string(), "".to_string(), "b".to_string()]);
    assert!(parse_fields(None).is_empty());
}

#[test]
fn route_methods() {
    assert_eq!(route_method("GET"), RouteMethod::Get);
    assert_eq!(route_method("POST"), RouteMethod::Post);
    assert_eq!(route_method("PUT"), RouteMethod::Put);
    assert_eq!(route_method("DELETE"), RouteMethod::Delete);
    assert_eq!(route_method("get"), RouteMethod::NotAllowed);
    assert_eq!(route_method("PATCH"), RouteMethod::NotAllowed);
}

fn chain_config(id: u64, nodes: &[&str], strategy: StrategyType) -> ChainConfig {
    ChainConfig {
        name: format!("chain {}", id),
        chain_id: id,
        chain: None,
        nodes: nodes.iter().map(|s| s.to_string()).collect(),
        load_balancing_strategy: strategy,
    }
}

#[test]
fn upstream_selection() {
    let chains = vec![
        chain_config(1, &["https://a", "https://b"], StrategyType::RoundRobin),
        chain_config(10, &["https://c"], StrategyType::LeastConnections),
    ];
    let balancers = build_load_balancers(&chains);
    let lists = build_chain_nodes(&chains);
    let mut nodes: HashMap<u64, Arc<NodeList>> =
        lists.into_iter().map(|(k, v)| (k, Arc::new(v))).collect();

    assert_eq!(select_upstream(None, &nodes, &balancers).err(), Some(RouteError::InvalidChain));
    assert_eq!(
        select_upstream(Some(Chain::Base), &nodes, &balancers).err(),
        Some(RouteError::UnsupportedChainId)
    );
    assert_eq!(select_upstream(Some(Chain::Ethereum), &nodes, &balancers).ok().unwrap().url, "https://a");
    assert_eq!(select_upstream(Some(Chain::Ethereum), &nodes, &balancers).ok().unwrap().url, "https://b");
    assert_eq!(select_upstream(Some(Chain::Optimism), &nodes, &balancers).ok().unwrap().url, "https://c");

    nodes.insert(8453, Arc::new(NodeList::new(vec!["https://d".to_string()])));
    assert_eq!(
        select_upstream(Some(Chain::Base), &nodes, &balancers).err(),
        Some(RouteError::InvalidChainId)
    );

    let sick = NodeList::new(vec!["https://c".to_string()]).with_health_results(&vec![false]);
    nodes.insert(10, Arc::new(sick));
    assert_eq!(
        select_upstream(Some(Chain::Optimism), &nodes, &balancers).err(),
        Some(RouteError::NoAvailableNodes)
    );
}

#[test]
fn later_chain_entry_wins() {
    let chains = vec![
        chain_config(1, &["https://a"], StrategyType::RoundRobin),
        chain_config(1, &["https://b"], StrategyType::Random),
    ];
    let balancers = build_load_balancers(&chains);
    assert_eq!(balancers.len(), 1);
    let b = balancers.into_iter().next().unwrap().1;
    assert_eq!(StrategyType::from(b), StrategyType::Random);
    let lists = build_chain_nodes(&chains);
    assert_eq!(lists[&1].nodes[0].url, "https://b");
}

#[test]
fn chain_health_counts() {
    let l = NodeList::new(vec!["a".to_string(), "b".to_string(), "c".to_string()])
        .with_health_results(&vec![true, false, true]);
    l.nodes[0].increment_connections();
    l.nodes[1].increment_connections();
    l.nodes[1].increment_connections();
    let h = chain_health(7, &l);
    assert_eq!(h.chain_id, 7);
    assert_eq!(h.healthy_nodes, 2);
    assert_eq!(h.total_nodes, 3);
    assert_eq!(h.total_connections, 3);
}

#[test]
fn fixed_route_matches_only_its_own_path() {
    assert_eq!(match_path("/a/b", "/a/b"), Some(vec![]));
    assert_eq!(match_path("/a/b", "/a/b/"), None);
    assert_eq!(match_path("/a/b", "/a//b"), None);
    assert_eq!(match_path("/a/b", "a/b"), None);
    assert_eq!(match_path("/a/b", "/a/c"), None);
}
