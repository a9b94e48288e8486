use bunsan::config::{AppConfig, ChainConfig, ConfigError};
use bunsan::load_balancer::StrategyType;
use bunsan::server::Chain;

fn chain(name: &str, id: u64, chain: Option<Chain>, nodes: &[&str]) -> ChainConfig {
    ChainConfig {
        name: name.to_string(),
        chain_id: id,
        chain,
        nodes: nodes.iter().map(|s| s.to_string()).collect(),
        load_balancing_strategy: StrategyType::RoundRobin,
    }
}

fn config(chains: Vec<ChainConfig>) -> AppConfig {
    AppConfig {
        server_addr: "127.0.0.1:8080".to_string(),
        update_interval: 60,
        min_pool_size: 1,
        max_pool_size: 10,
        chains,
    }
}

#[test]
fn load_fills_in_chains_from_ids() {
    let c = config(vec![
        chain("Ethereum", 1, None, &["https://a"]),
        chain("Optimism", 10, None, &["https://b", "https://c"]),
        chain("Arbitrum One", 42161, None, &["https://d"]),
    ]);
    let loaded = AppConfig::load(c).ok().unwrap();
    assert_eq!(loaded.chains[0].chain, Some(Chain::Ethereum));
    assert_eq!(loaded.chains[1].chain, Some(Chain::Optimism));
    assert_eq!(loaded.chains[2].chain, Some(Chain::Arbitrum));
    assert_eq!(loaded.chains[1].nodes, vec!["https://b".to_string(), "https://c".to_string()]);
    assert_eq!(loaded.server_addr, "127.0.0.1:8080");
    assert_eq!(loaded.update_interval, 60);
}

#[test]
fn named_chain_is_kept() {
    let c = config(vec![chain("Custom", 999, Some(Chain::Base), &["https://a"])]);
    let loaded = AppConfig::load(c).ok().unwrap();
    assert_eq!(loaded.chains[0].chain, Some(Chain::Base));
    assert_eq!(loaded.chains[0].chain_id, 999);
}

#[test]
fn unsupported_chain_id() {
    let c = config(vec![
        chain("Ethereum", 1, None, &["https://a"]),
        chain("Unknown", 12345, None, &["https://b"]),
        chain("Unknown2", 777, None, &["https://c"]),
    ]);
    assert_eq!(AppConfig::load(c).err(), Some(ConfigError::UnsupportedChainId(12345)));
}

#[test]
fn zero_update_interval() {
    let mut c = config(vec![chain("Ethereum", 1, None, &["https://a"])]);
    c.update_interval = 0;
    assert_eq!(AppConfig::load(c).err(), Some(ConfigError::ZeroUpdateInterval));
}

#[test]
fn zero_min_pool_size() {
    let mut c = config(vec![chain("Ethereum", 1, None, &["https://a"])]);
    c.min_pool_size = 0;
    assert_eq!(AppConfig::load(c).err(), Some(ConfigError::ZeroMinPoolSize));
}

#[test]
fn max_pool_below_min() {
    let mut c = config(vec![chain("Ethereum", 1, None, &["https://a"])]);
    c.min_pool_size = 5;
    c.max_pool_size = 4;
    assert_eq!(AppConfig::load(c).err(), Some(ConfigError::MaxPoolBelowMin));
}

#[test]
fn equal_pool_bounds_are_accepted() {
    let mut c = config(vec![chain("Ethereum", 1, None, &["https://a"])]);
    c.min_pool_size = 5;
    c.max_pool_size = 5;
    assert!(AppConfig::load(c).is_ok());
}

#[test]
fn no_chains() {
    assert_eq!(AppConfig::load(config(vec![])).err(), Some(ConfigError::NoChains));
}

#[test]
fn chain_without_nodes() {
    let c = config(vec![
        chain("Ethereum", 1, None, &["https://a"]),
        chain("Optimism", 10, None, &[]),
    ]);
    assert_eq!(AppConfig::load(c).err(), Some(ConfigError::ChainWithoutNodes));
}

#[test]
fn chain_ids_are_checked_first() {
    let mut c = config(vec![chain("Unknown", 4, None, &[])]);
    c.update_interval = 0;
    assert_eq!(AppConfig::load(c).err(), Some(ConfigError::UnsupportedChainId(4)));
}
