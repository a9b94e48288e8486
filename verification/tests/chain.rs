use bunsan::server::{determine_chain, transaction_chain, Chain};

const ALL: [Chain; 19] = [
    Chain::Ethereum,
    Chain::Optimism,
    Chain::Arbitrum,
    Chain::BNBSmartChain,
    Chain::BNBSmartChainTestnet,
    Chain::SepoliaTestnet,
    Chain::OPSepoliaTestnet,
    Chain::ArbitrumSepoliaTestnet,
    Chain::BaseSepoliaTestnet,
    Chain::Base,
    Chain::PolygonMainnet,
    Chain::PolygonZkEVM,
    Chain::PolygonAmoy,
    Chain::PolygonZkEVMTestnet,
    Chain::Scroll,
    Chain::ScrollSepoliaTestnet,
    Chain::TaikoMainnet,
    Chain::NeonEVMMainnet,
    Chain::NeonEVMDevnet,
];

#[test]
fn chain_ids_are_the_documented_ones() {
    assert_eq!(Chain::Ethereum.to_chain_id(), 1);
    assert_eq!(Chain::Optimism.to_chain_id(), 10);
    assert_eq!(Chain::Arbitrum.to_chain_id(), 42161);
    assert_eq!(Chain::BNBSmartChain.to_chain_id(), 56);
    assert_eq!(Chain::Base.to_chain_id(), 8453);
    assert_eq!(Chain::NeonEVMDevnet.to_chain_id(), 245022926);
}

#[test]
fn chain_id_round_trip() {
    for c in ALL {
        assert_eq!(Chain::from_chain_id(c.to_chain_id()), Some(c));
    }
}

#[test]
fn chain_ids_are_distinct() {
    for a in ALL {
        for b in ALL {
            assert_eq!(a.to_chain_id() == b.to_chain_id(), a == b);
        }
    }
}

#[test]
fn unknown_chain_id_is_none() {
    assert_eq!(Chain::from_chain_id(0), None);
    assert_eq!(Chain::from_chain_id(5), None);
}

#[test]
fn endpoint_names_designate_their_chains() {
    let names = [
        ("eth", Chain::Ethereum),
        ("op", Chain::Optimism),
        ("arb", Chain::Arbitrum),
        ("bnb", Chain::BNBSmartChain),
        ("bnbt", Chain::BNBSmartChainTestnet),
        ("sepolia", Chain::SepoliaTestnet),
        ("op-sepolia", Chain::OPSepoliaTestnet),
        ("arb-sepolia", Chain::ArbitrumSepoliaTestnet),
        ("base-sepolia", Chain::BaseSepoliaTestnet),
        ("base", Chain::Base),
        ("polygon", Chain::PolygonMainnet),
        ("polygon-zkevm", Chain::PolygonZkEVM),
        ("polygon-amoy", Chain::PolygonAmoy),
        ("polygon-zkevm-testnet", Chain::PolygonZkEVMTestnet),
        ("scroll", Chain::Scroll),
        ("scroll-sepolia", Chain::ScrollSepoliaTestnet),
        ("taiko", Chain::TaikoMainnet),
        ("neon", Chain::NeonEVMMainnet),
        ("neon-devnet", Chain::NeonEVMDevnet),
    ];
    for (name, chain) in names {
        assert_eq!(Chain::from_str(name), Some(chain));
    }
}

#[test]
fn aliases_are_accepted() {
    assert_eq!(Chain::from_str("ethereum"), Some(Chain::Ethereum));
    assert_eq!(Chain::from_str("binance"), Some(Chain::BNBSmartChain));
    assert_eq!(Chain::from_str("bsc"), Some(Chain::BNBSmartChain));
    assert_eq!(Chain::from_str("bsc-testnet"), Some(Chain::BNBSmartChainTestnet));
    assert_eq!(Chain::from_str("matic"), Some(Chain::PolygonMainnet));
}

#[test]
fn names_are_case_insensitive() {
    assert_eq!(Chain::from_str("ETH"), Some(Chain::Ethereum));
    assert_eq!(Chain::from_str("Op-Sepolia"), Some(Chain::OPSepoliaTestnet));
    assert_eq!(Chain::from_lowercase_name("ETH"), None);
}

#[test]
fn unknown_names_are_none() {
    assert_eq!(Chain::from_str(""), None);
    assert_eq!(Chain::from_str("solana"), None);
    assert_eq!(Chain::from_str("eth "), None);
}

#[test]
fn path_takes_precedence() {
    assert_eq!(determine_chain(Some("op"), Some("arb"), Some("base")), Some(Chain::Optimism));
}

#[test]
fn unknown_path_falls_back_to_header() {
    assert_eq!(determine_chain(Some("nope"), Some("arb"), None), Some(Chain::Arbitrum));
}

#[test]
fn body_chain_is_final_even_when_unknown() {
    assert_eq!(determine_chain(None, Some("nope"), Some("nope")), None);
    assert_eq!(determine_chain(None, None, Some("scroll")), Some(Chain::Scroll));
}

#[test]
fn default_chain_is_ethereum() {
    assert_eq!(determine_chain(None, None, None), Some(Chain::Ethereum));
    assert_eq!(determine_chain(Some("x"), Some("y"), None), Some(Chain::Ethereum));
}

#[test]
fn transaction_path_chain_has_no_fallback() {
    assert_eq!(transaction_chain(Some("nope"), Some("eth")), None);
    assert_eq!(transaction_chain(Some("base"), None), Some(Chain::Base));
    assert_eq!(transaction_chain(None, Some("arb")), Some(Chain::Arbitrum));
    assert_eq!(transaction_chain(None, None), Some(Chain::Ethereum));
}

#[test]
fn upper_case_names_match_lower_case_ones() {
    for name in ["ethereum", "op", "base-sepolia", "matic", "bsc-testnet"] {
        assert_eq!(Chain::from_str(&name.to_ascii_uppercase()), Chain::from_str(name));
    }
    assert_eq!(Chain::from_str("BASE"), Some(Chain::Base));
}
