use crate::config::ChainConfig;
use crate::extensions::manager::{routes_view, ExtensionManager, RouteTable, RouteView};
use crate::load_balancer::{
    healthy_nodes, strategy_of, Balancer, LoadBalancingStrategy, StrategyType,
};
use crate::node::{NodeHealth, NodeList};
use crate::text::{split_on, split_str, str_eq, string_views};
use std::collections::HashMap;
use std::sync::Arc;
use vstd::prelude::*;

verus! {

/// The EVM-compatible networks that the balancer serves.
#[derive(Debug, Clone, Copy, PartialEq, Eq, Structural, Hash)]
pub enum Chain {
    Ethereum,
    Optimism,
    Arbitrum,
    BNBSmartChain,
    BNBSmartChainTestnet,
    SepoliaTestnet,
    OPSepoliaTestnet,
    ArbitrumSepoliaTestnet,
    BaseSepoliaTestnet,
    Base,
    PolygonMainnet,
    PolygonZkEVM,
    PolygonAmoy,
    PolygonZkEVMTestnet,
    Scroll,
    ScrollSepoliaTestnet,
    TaikoMainnet,
    NeonEVMMainnet,
    NeonEVMDevnet,
}

/// The numeric chain id of each network.
pub open spec fn chain_id_of(c: Chain) -> u64 {
    match c {
        Chain::Ethereum => 1,
        Chain::Optimism => 10,
        Chain::Arbitrum => 42161,
        Chain::BNBSmartChain => 56,
        Chain::BNBSmartChainTestnet => 97,
        Chain::SepoliaTestnet => 11155111,
        Chain::OPSepoliaTestnet => 11155420,
        Chain::ArbitrumSepoliaTestnet => 421614,
        Chain::BaseSepoliaTestnet => 84532,
        Chain::Base => 8453,
        Chain::PolygonMainnet => 137,
        Chain::PolygonZkEVM => 1101,
        Chain::PolygonAmoy => 80002,
        Chain::PolygonZkEVMTestnet => 1442,
        Chain::Scroll => 534352,
        Chain::ScrollSepoliaTestnet => 534351,
        Chain::TaikoMainnet => 167000,
        Chain::NeonEVMMainnet => 245022934,
        Chain::NeonEVMDevnet => 245022926,
    }
}


/// The network that a lower-case chain name designates, if any.
pub open spec fn alias_chain(name: Seq<char>) -> Option<Chain> {
    if name == "eth"@ || name == "ethereum"@ {
        Some(Chain::Ethereum)
    } else if name == "op"@ || name == "optimism"@ {
        Some(Chain::Optimism)
    } else if name == "arb"@ || name == "arbitrum"@ {
        Some(Chain::Arbitrum)
    } else if name == "bnb"@ || name == "binance"@ || name == "bsc"@ {
        Some(Chain::BNBSmartChain)
    } else if name == "bnbt"@ || name == "bsc-testnet"@ {
        Some(Chain::BNBSmartChainTestnet)
    } else if name == "sepolia"@ {
        Some(Chain::SepoliaTestnet)
    } else if name == "op-sepolia"@ {
        Some(Chain::OPSepoliaTestnet)
    } else if name == "arb-sepolia"@ {
        Some(Chain::ArbitrumSepoliaTestnet)
    } else if name == "base-sepolia"@ {
        Some(Chain::BaseSepoliaTestnet)
    } else if name == "base"@ {
        Some(Chain::Base)
    } else if name == "polygon"@ || name == "matic"@ {
        Some(Chain::PolygonMainnet)
    } else if name == "polygon-zkevm"@ {
        Some(Chain::PolygonZkEVM)
    } else if name == "polygon-amoy"@ {
        Some(Chain::PolygonAmoy)
    } else if name == "polygon-zkevm-testnet"@ {
        Some(Chain::PolygonZkEVMTestnet)
    } else if name == "scroll"@ {
        Some(Chain::Scroll)
    } else if name == "scroll-sepolia"@ {
        Some(Chain::ScrollSepoliaTestnet)
    } else if name == "taiko"@ {
        Some(Chain::TaikoMainnet)
    } else if name == "neon"@ {
        Some(Chain::NeonEVMMainnet)
    } else if name == "neon-devnet"@ {
        Some(Chain::NeonEVMDevnet)
    } else {
        None
    }
}

/// Every character is ASCII.
pub open spec fn is_ascii_text(s: Seq<char>) -> bool {
    forall|i: int| 0 <= i < s.len() ==> (#[trigger] s[i] as u32) < 128
}

/// An ASCII character in lower case: `A` to `Z` become `a` to `z`.
pub open spec fn ascii_lower_char(c: char) -> char {
    if 'A' <= c && c <= 'Z' {
        ((c as u32) + 32) as char
    } else {
        c
    }
}

/// The text with its ASCII upper-case letters in lower case.
pub open spec fn ascii_lowercase(s: Seq<char>) -> Seq<char> {
    s.map_values(|c: char| ascii_lower_char(c))
}

/// Lower-casing ASCII text twice changes nothing more: names differing only in
/// the case of ASCII letters designate the same network, whichever case is used.
pub proof fn lemma_ascii_lowercase_idempotent(s: Seq<char>)
    ensures
        ascii_lowercase(ascii_lowercase(s)) == ascii_lowercase(s),
        is_ascii_text(s) ==> is_ascii_text(ascii_lowercase(s)),
{
    assert forall|i: int| 0 <= i < s.len() implies #[trigger] ascii_lower_char(ascii_lower_char(s[i]))
        == ascii_lower_char(s[i]) && ((ascii_lower_char(s[i]) as u32) < 128 || (s[i] as u32) >= 128) by {
        let c = s[i];
        if 'A' <= c && c <= 'Z' {
            let d = ((c as u32) + 32) as char;
            assert((d as u32) == (c as u32) + 32);
            assert(!('A' <= d && d <= 'Z'));
        }
    }
    assert(ascii_lowercase(ascii_lowercase(s)) =~= ascii_lowercase(s));
}

/// What `str::to_lowercase` returns for a string: its Unicode lower-case form.
pub uninterp spec fn lowercase_of(s: Seq<char>) -> Seq<char>;

/// Calls `str::to_lowercase`. Claimed: the result is a function of the argument's
/// characters alone, named `lowercase_of`; the Unicode case mapping itself (with
/// its special cases, such as a final capital sigma) is not written out.
/// For text made of ASCII characters alone it also claims what the standard
/// library documents: each upper-case ASCII letter becomes its lower-case
/// letter and every other character stays.
#[verifier::external_body]
fn to_lowercase(s: &str) -> (r: String)
    ensures
        r@ == lowercase_of(s@),
        is_ascii_text(s@) ==> r@ == ascii_lowercase(s@),
{
    s.to_lowercase()
}

/// The network that a chain name designates, case aside.
pub open spec fn chain_named(s: Seq<char>) -> Option<Chain> {
    alias_chain(lowercase_of(s))
}

/// The network that a configured chain id designates, if any.
pub open spec fn chain_with_id(id: u64) -> Option<Chain> {
    if id == 1 {
        Some(Chain::Ethereum)
    } else if id == 10 {
        Some(Chain::Optimism)
    } else if id == 42161 {
        Some(Chain::Arbitrum)
    } else if id == 56 {
        Some(Chain::BNBSmartChain)
    } else if id == 97 {
        Some(Chain::BNBSmartChainTestnet)
    } else if id == 11155111 {
        Some(Chain::SepoliaTestnet)
    } else if id == 11155420 {
        Some(Chain::OPSepoliaTestnet)
    } else if id == 421614 {
        Some(Chain::ArbitrumSepoliaTestnet)
    } else if id == 84532 {
        Some(Chain::BaseSepoliaTestnet)
    } else if id == 8453 {
        Some(Chain::Base)
    } else if id == 137 {
        Some(Chain::PolygonMainnet)
    } else if id == 1101 {
        Some(Chain::PolygonZkEVM)
    } else if id == 80002 {
        Some(Chain::PolygonAmoy)
    } else if id == 1442 {
        Some(Chain::PolygonZkEVMTestnet)
    } else if id == 534352 {
        Some(Chain::Scroll)
    } else if id == 534351 {
        Some(Chain::ScrollSepoliaTestnet)
    } else if id == 167000 {
        Some(Chain::TaikoMainnet)
    } else if id == 245022934 {
        Some(Chain::NeonEVMMainnet)
    } else if id == 245022926 {
        Some(Chain::NeonEVMDevnet)
    } else {
        None
    }
}

impl Chain {
    /// The network named by an already lower-cased chain name or alias.
    pub fn from_lowercase_name(name: &str) -> (r: Option<Chain>)
        ensures
            r == alias_chain(name@),
    {
        if str_eq(name, "eth") || str_eq(name, "ethereum") {
            Some(Chain::Ethereum)
        } else if str_eq(name, "op") || str_eq(name, "optimism") {
            Some(Chain::Optimism)
        } else if str_eq(name, "arb") || str_eq(name, "arbitrum") {
            Some(Chain::Arbitrum)
        } else if str_eq(name, "bnb") || str_eq(name, "binance") || str_eq(name, "bsc") {
            Some(Chain::BNBSmartChain)
        } else if str_eq(name, "bnbt") || str_eq(name, "bsc-testnet") {
            Some(Chain::BNBSmartChainTestnet)
        } else if str_eq(name, "sepolia") {
            Some(Chain::SepoliaTestnet)
        } else if str_eq(name, "op-sepolia") {
            Some(Chain::OPSepoliaTestnet)
        } else if str_eq(name, "arb-sepolia") {
            Some(Chain::ArbitrumSepoliaTestnet)
        } else if str_eq(name, "base-sepolia") {
            Some(Chain::BaseSepoliaTestnet)
        } else if str_eq(name, "base") {
            Some(Chain::Base)
        } else if str_eq(name, "polygon") || str_eq(name, "matic") {
            Some(Chain::PolygonMainnet)
        } else if str_eq(name, "polygon-zkevm") {
            Some(Chain::PolygonZkEVM)
        } else if str_eq(name, "polygon-amoy") {
            Some(Chain::PolygonAmoy)
        } else if str_eq(name, "polygon-zkevm-testnet") {
            Some(Chain::PolygonZkEVMTestnet)
        } else if str_eq(name, "scroll") {
            Some(Chain::Scroll)
        } else if str_eq(name, "scroll-sepolia") {
            Some(Chain::ScrollSepoliaTestnet)
        } else if str_eq(name, "taiko") {
            Some(Chain::TaikoMainnet)
        } else if str_eq(name, "neon") {
            Some(Chain::NeonEVMMainnet)
        } else if str_eq(name, "neon-devnet") {
            Some(Chain::NeonEVMDevnet)
        } else {
            None
        }
    }

    /// The network named by `s`, compared without regard to case.
    pub fn from_str(s: &str) -> (r: Option<Chain>)
        ensures
            r == chain_named(s@),
            is_ascii_text(s@) ==> r == alias_chain(ascii_lowercase(s@)),
    {
        let lower = to_lowercase(s);
        Chain::from_lowercase_name(lower.as_str())
    }

    /// The network that a configured chain id stands for, if the id is supported.
    pub fn from_chain_id(id: u64) -> (r: Option<Chain>)
        ensures
            r == chain_with_id(id),
    {
        match id {
            1 => Some(Chain::Ethereum),
            10 => Some(Chain::Optimism),
            42161 => Some(Chain::Arbitrum),
            56 => Some(Chain::BNBSmartChain),
            97 => Some(Chain::BNBSmartChainTestnet),
            11155111 => Some(Chain::SepoliaTestnet),
            11155420 => Some(Chain::OPSepoliaTestnet),
            421614 => Some(Chain::ArbitrumSepoliaTestnet),
            84532 => Some(Chain::BaseSepoliaTestnet),
            8453 => Some(Chain::Base),
            137 => Some(Chain::PolygonMainnet),
            1101 => Some(Chain::PolygonZkEVM),
            80002 => Some(Chain::PolygonAmoy),
            1442 => Some(Chain::PolygonZkEVMTestnet),
            534352 => Some(Chain::Scroll),
            534351 => Some(Chain::ScrollSepoliaTestnet),
            167000 => Some(Chain::TaikoMainnet),
            245022934 => Some(Chain::NeonEVMMainnet),
            245022926 => Some(Chain::NeonEVMDevnet),
            _ => None,
        }
    }
    /// The chain id under which this network is known.
    pub fn to_chain_id(&self) -> (id: u64)
        ensures
            id == chain_id_of(*self),
    {
        match self {
            Chain::Ethereum => 1,
            Chain::Optimism => 10,
            Chain::Arbitrum => 42161,
            Chain::BNBSmartChain => 56,
            Chain::BNBSmartChainTestnet => 97,
            Chain::SepoliaTestnet => 11155111,
            Chain::OPSepoliaTestnet => 11155420,
            Chain::ArbitrumSepoliaTestnet => 421614,
            Chain::BaseSepoliaTestnet => 84532,
            Chain::Base => 8453,
            Chain::PolygonMainnet => 137,
            Chain::PolygonZkEVM => 1101,
            Chain::PolygonAmoy => 80002,
            Chain::PolygonZkEVMTestnet => 1442,
            Chain::Scroll => 534352,
            Chain::ScrollSepoliaTestnet => 534351,
            Chain::TaikoMainnet => 167000,
            Chain::NeonEVMMainnet => 245022934,
            Chain::NeonEVMDevnet => 245022926,
        }
    }
}


/// Each supported network answers to its published EVM chain id, in both
/// directions: the id of a network, and the network an id designates.
pub proof fn lemma_published_chain_ids()
    ensures
        chain_id_of(Chain::Ethereum) == 1,
        chain_id_of(Chain::Optimism) == 10,
        chain_id_of(Chain::Arbitrum) == 42161,
        chain_id_of(Chain::BNBSmartChain) == 56,
        chain_id_of(Chain::BNBSmartChainTestnet) == 97,
        chain_id_of(Chain::SepoliaTestnet) == 11155111,
        chain_id_of(Chain::OPSepoliaTestnet) == 11155420,
        chain_id_of(Chain::ArbitrumSepoliaTestnet) == 421614,
        chain_id_of(Chain::BaseSepoliaTestnet) == 84532,
        chain_id_of(Chain::Base) == 8453,
        chain_id_of(Chain::PolygonMainnet) == 137,
        chain_id_of(Chain::PolygonZkEVM) == 1101,
        chain_id_of(Chain::PolygonAmoy) == 80002,
        chain_id_of(Chain::PolygonZkEVMTestnet) == 1442,
        chain_id_of(Chain::Scroll) == 534352,
        chain_id_of(Chain::ScrollSepoliaTestnet) == 534351,
        chain_id_of(Chain::TaikoMainnet) == 167000,
        chain_id_of(Chain::NeonEVMMainnet) == 245022934,
        chain_id_of(Chain::NeonEVMDevnet) == 245022926,
        chain_with_id(1) == Some(Chain::Ethereum),
        chain_with_id(10) == Some(Chain::Optimism),
        chain_with_id(42161) == Some(Chain::Arbitrum),
        chain_with_id(56) == Some(Chain::BNBSmartChain),
        chain_with_id(97) == Some(Chain::BNBSmartChainTestnet),
        chain_with_id(11155111) == Some(Chain::SepoliaTestnet),
        chain_with_id(11155420) == Some(Chain::OPSepoliaTestnet),
        chain_with_id(421614) == Some(Chain::ArbitrumSepoliaTestnet),
        chain_with_id(84532) == Some(Chain::BaseSepoliaTestnet),
        chain_with_id(8453) == Some(Chain::Base),
        chain_with_id(137) == Some(Chain::PolygonMainnet),
        chain_with_id(1101) == Some(Chain::PolygonZkEVM),
        chain_with_id(80002) == Some(Chain::PolygonAmoy),
        chain_with_id(1442) == Some(Chain::PolygonZkEVMTestnet),
        chain_with_id(534352) == Some(Chain::Scroll),
        chain_with_id(534351) == Some(Chain::ScrollSepoliaTestnet),
        chain_with_id(167000) == Some(Chain::TaikoMainnet),
        chain_with_id(245022934) == Some(Chain::NeonEVMMainnet),
        chain_with_id(245022926) == Some(Chain::NeonEVMDevnet),
{
}

/// The lengths of the documented chain names.
proof fn lemma_chain_name_lengths()
    ensures
        "eth"@.len() == 3,
        "ethereum"@.len() == 8,
        "op"@.len() == 2,
        "optimism"@.len() == 8,
        "arb"@.len() == 3,
        "arbitrum"@.len() == 8,
        "bnb"@.len() == 3,
        "binance"@.len() == 7,
        "bsc"@.len() == 3,
        "bnbt"@.len() == 4,
        "bsc-testnet"@.len() == 11,
        "sepolia"@.len() == 7,
        "op-sepolia"@.len() == 10,
        "arb-sepolia"@.len() == 11,
        "base-sepolia"@.len() == 12,
        "base"@.len() == 4,
        "polygon"@.len() == 7,
        "matic"@.len() == 5,
        "polygon-zkevm"@.len() == 13,
        "polygon-amoy"@.len() == 12,
        "polygon-zkevm-testnet"@.len() == 21,
        "scroll"@.len() == 6,
        "scroll-sepolia"@.len() == 14,
        "taiko"@.len() == 5,
        "neon"@.len() == 4,
        "neon-devnet"@.len() == 11,
{
    reveal_strlit("eth");
    reveal_strlit("ethereum");
    reveal_strlit("op");
    reveal_strlit("optimism");
    reveal_strlit("arb");
    reveal_strlit("arbitrum");
    reveal_strlit("bnb");
    reveal_strlit("binance");
    reveal_strlit("bsc");
    reveal_strlit("bnbt");
    reveal_strlit("bsc-testnet");
    reveal_strlit("sepolia");
    reveal_strlit("op-sepolia");
    reveal_strlit("arb-sepolia");
    reveal_strlit("base-sepolia");
    reveal_strlit("base");
    reveal_strlit("polygon");
    reveal_strlit("matic");
    reveal_strlit("polygon-zkevm");
    reveal_strlit("polygon-amoy");
    reveal_strlit("polygon-zkevm-testnet");
    reveal_strlit("scroll");
    reveal_strlit("scroll-sepolia");
    reveal_strlit("taiko");
    reveal_strlit("neon");
    reveal_strlit("neon-devnet");
}

/// Each documented chain name and alias designates its network.
pub proof fn lemma_documented_chain_names()
    ensures
        alias_chain("eth"@) == Some(Chain::Ethereum),
        alias_chain("ethereum"@) == Some(Chain::Ethereum),
        alias_chain("op"@) == Some(Chain::Optimism),
        alias_chain("optimism"@) == Some(Chain::Optimism),
        alias_chain("arb"@) == Some(Chain::Arbitrum),
        alias_chain("arbitrum"@) == Some(Chain::Arbitrum),
        alias_chain("bnb"@) == Some(Chain::BNBSmartChain),
        alias_chain("binance"@) == Some(Chain::BNBSmartChain),
        alias_chain("bsc"@) == Some(Chain::BNBSmartChain),
        alias_chain("bnbt"@) == Some(Chain::BNBSmartChainTestnet),
        alias_chain("bsc-testnet"@) == Some(Chain::BNBSmartChainTestnet),
        alias_chain("sepolia"@) == Some(Chain::SepoliaTestnet),
        alias_chain("op-sepolia"@) == Some(Chain::OPSepoliaTestnet),
        alias_chain("arb-sepolia"@) == Some(Chain::ArbitrumSepoliaTestnet),
        alias_chain("base-sepolia"@) == Some(Chain::BaseSepoliaTestnet),
        alias_chain("base"@) == Some(Chain::Base),
        alias_chain("polygon"@) == Some(Chain::PolygonMainnet),
        alias_chain("matic"@) == Some(Chain::PolygonMainnet),
        alias_chain("polygon-zkevm"@) == Some(Chain::PolygonZkEVM),
        alias_chain("polygon-amoy"@) == Some(Chain::PolygonAmoy),
        alias_chain("polygon-zkevm-testnet"@) == Some(Chain::PolygonZkEVMTestnet),
        alias_chain("scroll"@) == Some(Chain::Scroll),
        alias_chain("scroll-sepolia"@) == Some(Chain::ScrollSepoliaTestnet),
        alias_chain("taiko"@) == Some(Chain::TaikoMainnet),
        alias_chain("neon"@) == Some(Chain::NeonEVMMainnet),
        alias_chain("neon-devnet"@) == Some(Chain::NeonEVMDevnet),
{
    lemma_chain_name_lengths();
    reveal_strlit("eth");
    reveal_strlit("ethereum");
    reveal_strlit("optimism");
    reveal_strlit("arb");
    reveal_strlit("arbitrum");
    reveal_strlit("bnb");
    reveal_strlit("binance");
    reveal_strlit("bsc");
    reveal_strlit("bnbt");
    reveal_strlit("bsc-testnet");
    reveal_strlit("sepolia");
    reveal_strlit("arb-sepolia");
    reveal_strlit("base-sepolia");
    reveal_strlit("base");
    reveal_strlit("polygon");
    reveal_strlit("matic");
    reveal_strlit("polygon-amoy");
    reveal_strlit("taiko");
    reveal_strlit("neon");
    reveal_strlit("neon-devnet");
    // Names of one length differ in some letter.
    assert("optimism"@[0] != "ethereum"@[0]);
    assert("arb"@[0] != "eth"@[0]);
    assert("arbitrum"@[0] != "ethereum"@[0]);
    assert("arbitrum"@[0] != "optimism"@[0]);
    assert("bnb"@[0] != "eth"@[0]);
    assert("bnb"@[0] != "arb"@[0]);
    assert("bsc"@[0] != "eth"@[0]);
    assert("bsc"@[0] != "arb"@[0]);
    assert("bsc"@[1] != "bnb"@[1]);
    assert("sepolia"@[0] != "binance"@[0]);
    assert("arb-sepolia"@[0] != "bsc-testnet"@[0]);
    assert("base"@[1] != "bnbt"@[1]);
    assert("polygon"@[0] != "binance"@[0]);
    assert("polygon"@[0] != "sepolia"@[0]);
    assert("polygon-amoy"@[0] != "base-sepolia"@[0]);
    assert("taiko"@[0] != "matic"@[0]);
    assert("neon"@[0] != "bnbt"@[0]);
    assert("neon"@[0] != "base"@[0]);
    assert("neon-devnet"@[0] != "bsc-testnet"@[0]);
    assert("neon-devnet"@[0] != "arb-sepolia"@[0]);
}

/// The chain id of a network leads back to that network: configuring a chain by
/// its id alone designates the same network that serves that id.
pub proof fn lemma_chain_id_round_trip(c: Chain)
    ensures
        chain_with_id(chain_id_of(c)) == Some(c),
{
}

/// Distinct networks have distinct chain ids.
pub proof fn lemma_chain_id_injective(a: Chain, b: Chain)
    ensures
        chain_id_of(a) == chain_id_of(b) ==> a == b,
{
    lemma_chain_id_round_trip(a);
    lemma_chain_id_round_trip(b);
}

/// An id designates a network exactly when it is that network's chain id.
pub proof fn lemma_chain_with_id_exact(id: u64, c: Chain)
    ensures
        chain_with_id(id) == Some(c) <==> chain_id_of(c) == id,
{
    lemma_chain_id_round_trip(c);
}


broadcast use vstd::std_specs::hash::group_hash_axioms;

/// The extensions that the server routes to, with their routes.
pub struct ExtensionState {
    pub manager: Arc<ExtensionManager>,
    pub routes: RouteTable,
}

/// A route segment of the form `{name}` binds whatever the path holds there.
pub open spec fn is_param_segment(seg: Seq<char>) -> bool {
    seg.len() >= 1 && seg[0] == '{' && seg[seg.len() - 1] == '}'
}

/// The name that a `{name}` segment binds.
pub open spec fn param_name(seg: Seq<char>) -> Seq<char> {
    seg.subrange(1, seg.len() - 1)
}

/// Route and path have as many segments, and each fixed route segment equals the
/// path's segment.
pub open spec fn segments_agree(rs: Seq<Seq<char>>, xs: Seq<Seq<char>>) -> bool {
    &&& rs.len() == xs.len()
    &&& forall|i: int| 0 <= i < rs.len() ==> is_param_segment(#[trigger] rs[i]) || rs[i] == xs[i]
}

/// The bindings made by the first `n` segments, in segment order.
pub open spec fn bindings_upto(rs: Seq<Seq<char>>, xs: Seq<Seq<char>>, n: int) -> Seq<
    (Seq<char>, Seq<char>),
>
    decreases n,
{
    if n <= 0 {
        Seq::empty()
    } else {
        let before = bindings_upto(rs, xs, n - 1);
        if is_param_segment(rs[n - 1]) {
            before.push((param_name(rs[n - 1]), xs[n - 1]))
        } else {
            before
        }
    }
}

/// The bindings that matching `route` against `path` makes, segment by segment,
/// or `None` when the path does not match the route.
pub open spec fn path_bindings(route: Seq<char>, path: Seq<char>) -> Option<
    Seq<(Seq<char>, Seq<char>)>,
> {
    let rs = split_on(route, '/');
    let xs = split_on(path, '/');
    if segments_agree(rs, xs) {
        Some(bindings_upto(rs, xs, rs.len() as int))
    } else {
        None
    }
}

/// The views of a list of string pairs.
pub open spec fn pair_views(v: Seq<(String, String)>) -> Seq<(Seq<char>, Seq<char>)> {
    v.map_values(|p: (String, String)| (p.0@, p.1@))
}

/// Matches a path against a route template whose `{name}` segments bind
/// parameters. On a match, returns the bindings in segment order (inserting them
/// in turn into a map gives the parameters; a later binding of a name wins).
pub fn match_path(route_path: &str, actual_path: &str) -> (r: Option<Vec<(String, String)>>)
    ensures
        match path_bindings(route_path@, actual_path@) {
            None => r is None,
            Some(b) => r matches Some(v) && pair_views(v@) == b,
        },
{
    let rs = split_str(route_path, '/');
    let xs = split_str(actual_path, '/');
    let ghost rsv = split_on(route_path@, '/');
    let ghost xsv = split_on(actual_path@, '/');
    if rs.len() != xs.len() {
        return None;
    }
    let mut params: Vec<(String, String)> = Vec::new();
    let mut i: usize = 0;
    while i < rs.len()
        invariant
            rs@.len() == xs@.len(),
            string_views(rs@) == rsv,
            string_views(xs@) == xsv,
            rsv == split_on(route_path@, '/'),
            xsv == split_on(actual_path@, '/'),
            i <= rs@.len(),
            forall|j: int| 0 <= j < i ==> is_param_segment(#[trigger] rsv[j]) || rsv[j] == xsv[j],
            pair_views(params@) == bindings_upto(rsv, xsv, i as int),
        decreases rs@.len() - i,
    {
        let seg = rs[i].as_str();
        let n = seg.unicode_len();
        assert(rsv[i as int] == seg@);
        assert(xsv[i as int] == xs@[i as int]@);
        if n >= 1 && seg.get_char(0) == '{' && seg.get_char(n - 1) == '}' {
            let name = seg.substring_char(1, n - 1).to_owned();
            let value = xs[i].clone();
            let ghost before = params@;
            params.push((name, value));
            assert(pair_views(params@) =~= pair_views(before).push((name@, value@)));
        } else if !str_eq(seg, xs[i].as_str()) {
            assert(!is_param_segment(rsv[i as int]) && rsv[i as int] != xsv[i as int]);
            assert(!segments_agree(rsv, xsv));
            return None;
        }
        i = i + 1;
    }
    Some(params)
}

/// The parameters that a path binds against a route, none when it does not match.
pub fn extract_path_params(route_path: &str, actual_path: &str) -> (r: Vec<(String, String)>)
    ensures
        pair_views(r@) == match path_bindings(route_path@, actual_path@) {
            Some(b) => b,
            None => Seq::empty(),
        },
{
    match match_path(route_path, actual_path) {
        Some(v) => v,
        None => {
            let v: Vec<(String, String)> = Vec::new();
            assert(pair_views(v@) =~= Seq::empty());
            v
        },
    }
}

/// Every route matches its own path.
pub proof fn lemma_route_matches_itself(route: Seq<char>)
    ensures
        path_bindings(route, route) is Some,
{
}

/// Without parameter segments, a route matches a path only when it has the
/// path's segments, and it then binds nothing.
pub proof fn lemma_fixed_route(route: Seq<char>, path: Seq<char>)
    requires
        forall|i: int|
            0 <= i < split_on(route, '/').len() ==> !is_param_segment(#[trigger] split_on(route, '/')[i]),
    ensures
        path_bindings(route, path) is Some <==> route == path,
        path_bindings(route, path) matches Some(b) ==> b.len() == 0,
{
    crate::text::lemma_split_on_injective(route, path, '/');
    let rs = split_on(route, '/');
    let xs = split_on(path, '/');
    assert forall|n: int| 0 <= n <= rs.len() implies #[trigger] bindings_upto(rs, xs, n).len() == 0 by {
        lemma_no_bindings(rs, xs, n);
    }
    if segments_agree(rs, xs) {
        assert(rs =~= xs);
    }
}

proof fn lemma_no_bindings(rs: Seq<Seq<char>>, xs: Seq<Seq<char>>, n: int)
    requires
        0 <= n <= rs.len(),
        forall|i: int| 0 <= i < rs.len() ==> !is_param_segment(#[trigger] rs[i]),
    ensures
        bindings_upto(rs, xs, n).len() == 0,
    decreases n,
{
    if n > 0 {
        lemma_no_bindings(rs, xs, n - 1);
    }
}

/// The chain that a request designates: a chain named in its URL path, else one
/// named in its `X-Chain-ID` header, else the one named in its body's
/// `params[0].chain` (even when that name is unknown), else Ethereum.
pub open spec fn chain_for_request(
    path_chain: Option<Seq<char>>,
    header_chain: Option<Seq<char>>,
    body_chain: Option<Seq<char>>,
) -> Option<Chain> {
    if path_chain is Some && chain_named(path_chain->0) is Some {
        chain_named(path_chain->0)
    } else if header_chain is Some && chain_named(header_chain->0) is Some {
        chain_named(header_chain->0)
    } else if body_chain is Some {
        chain_named(body_chain->0)
    } else {
        Some(Chain::Ethereum)
    }
}

/// The views of an optional string.
pub open spec fn opt_view(s: Option<&str>) -> Option<Seq<char>> {
    match s {
        Some(x) => Some(x@),
        None => None,
    }
}

/// The chain a request designates, from the `{chain}` segment of its path, its
/// `X-Chain-ID` header (when that is valid text) and the string at
/// `params[0].chain` in its body, in that order of precedence.
pub fn determine_chain(
    path_chain: Option<&str>,
    header_chain: Option<&str>,
    body_chain: Option<&str>,
) -> (r: Option<Chain>)
    ensures
        r == chain_for_request(opt_view(path_chain), opt_view(header_chain), opt_view(body_chain)),
{
    if let Some(path) = path_chain {
        if let Some(chain) = Chain::from_str(path) {
            return Some(chain);
        }
    }
    if let Some(header) = header_chain {
        if let Some(chain) = Chain::from_str(header) {
            return Some(chain);
        }
    }
    if let Some(body) = body_chain {
        return Chain::from_str(body);
    }
    Some(Chain::Ethereum)
}

/// The chain that a transaction lookup designates: the one named in its path when
/// the path names one (even an unknown one), else the one its header names, else
/// Ethereum.
pub fn transaction_chain(path_chain: Option<&str>, header_chain: Option<&str>) -> (r: Option<
    Chain,
>)
    ensures
        r == match path_chain {
            Some(p) => chain_named(p@),
            None => chain_for_request(None, opt_view(header_chain), None),
        },
{
    match path_chain {
        Some(p) => Chain::from_str(p),
        None => determine_chain(None, header_chain, None),
    }
}

/// The field names listed in a `fields` query parameter, split at commas; none
/// when the parameter is absent.
pub fn parse_fields(fields: Option<&str>) -> (r: Vec<String>)
    ensures
        string_views(r@) == match fields {
            Some(f) => split_on(f@, ','),
            None => Seq::empty(),
        },
{
    match fields {
        Some(f) => split_str(f, ','),
        None => {
            let v: Vec<String> = Vec::new();
            assert(string_views(v@) =~= Seq::empty());
            v
        },
    }
}

/// Why a request cannot be forwarded.
#[derive(Debug, Clone, Copy, PartialEq, Eq, Structural)]
pub enum RouteError {
    /// The request designates no known chain.
    InvalidChain,
    /// No node list is kept for the chain's id.
    UnsupportedChainId,
    /// No load balancer is kept for the chain's id.
    InvalidChainId,
    /// No node of the chain is healthy.
    NoAvailableNodes,
}

/// Chooses the node that serves a request for `chain`: the chain's load balancer
/// picks among the chain's nodes.
pub fn select_upstream(
    chain: Option<Chain>,
    chain_nodes: &HashMap<u64, Arc<NodeList>>,
    load_balancers: &HashMap<u64, Balancer>,
) -> (r: Result<Arc<NodeHealth>, RouteError>)
    ensures
        chain is None ==> r == Err::<Arc<NodeHealth>, RouteError>(RouteError::InvalidChain),
        chain matches Some(c) ==> {
            let id = chain_id_of(c);
            if !chain_nodes@.contains_key(id) {
                r == Err::<Arc<NodeHealth>, RouteError>(RouteError::UnsupportedChainId)
            } else if !load_balancers@.contains_key(id) {
                r == Err::<Arc<NodeHealth>, RouteError>(RouteError::InvalidChainId)
            } else {
                let healthy = healthy_nodes(chain_nodes@[id].nodes@);
                &&& (r == Err::<Arc<NodeHealth>, RouteError>(RouteError::NoAvailableNodes)
                    <==> healthy.len() == 0)
                &&& r matches Ok(n) ==> healthy.contains(n)
                &&& r is Ok || r == Err::<Arc<NodeHealth>, RouteError>(RouteError::NoAvailableNodes)
            }
        },
{
    let chain = match chain {
        Some(c) => c,
        None => return Err(RouteError::InvalidChain),
    };
    let id = chain.to_chain_id();
    let nodes = match chain_nodes.get(&id) {
        Some(n) => n,
        None => return Err(RouteError::UnsupportedChainId),
    };
    let balancer = match load_balancers.get(&id) {
        Some(b) => b,
        None => return Err(RouteError::InvalidChainId),
    };
    match balancer.select_node(nodes.nodes.as_slice()) {
        Some(node) => Ok(node),
        None => Err(RouteError::NoAvailableNodes),
    }
}

/// The strategy that the last chain entry with each id configures.
pub open spec fn strategies_upto(chains: Seq<ChainConfig>, n: int) -> Map<u64, StrategyType>
    decreases n,
{
    if n <= 0 {
        Map::empty()
    } else {
        strategies_upto(chains, n - 1).insert(
            chains[n - 1].chain_id,
            chains[n - 1].load_balancing_strategy,
        )
    }
}

/// One fresh load balancer per configured chain id, of the strategy that the last
/// entry with that id configures.
pub fn build_load_balancers(chains: &Vec<ChainConfig>) -> (r: HashMap<u64, Balancer>)
    ensures
        r@.dom() == strategies_upto(chains@, chains@.len() as int).dom(),
        forall|id: u64|
            #[trigger] r@.contains_key(id) ==> strategy_of(r@[id]) == strategies_upto(
                chains@,
                chains@.len() as int,
            )[id],
{
    let mut m: HashMap<u64, Balancer> = HashMap::new();
    let mut i: usize = 0;
    while i < chains.len()
        invariant
            i <= chains@.len(),
            m@.dom() == strategies_upto(chains@, i as int).dom(),
            forall|id: u64|
                #[trigger] m@.contains_key(id) ==> strategy_of(m@[id]) == strategies_upto(
                    chains@,
                    i as int,
                )[id],
        decreases chains@.len() - i,
    {
        let b = chains[i].load_balancing_strategy.create_strategy();
        m.insert(chains[i].chain_id, b);
        i = i + 1;
    }
    m
}

/// A chain's health at a glance.
pub struct ChainHealth {
    pub chain_id: u64,
    pub healthy_nodes: usize,
    pub total_nodes: usize,
    /// The sum of the connection counts read from the chain's nodes (wrapping).
    pub total_connections: usize,
}

/// The health of one chain's node list.
pub fn chain_health(chain_id: u64, nodes: &NodeList) -> (r: ChainHealth)
    ensures
        r.chain_id == chain_id,
        r.healthy_nodes == healthy_nodes(nodes.nodes@).len(),
        r.total_nodes == nodes.nodes@.len(),
{
    let healthy = crate::load_balancer::collect_healthy(nodes.nodes.as_slice());
    let mut total: usize = 0;
    let mut i: usize = 0;
    while i < nodes.nodes.len()
        invariant
            i <= nodes.nodes@.len(),
        decreases nodes.nodes@.len() - i,
    {
        total = total.wrapping_add(nodes.nodes[i].get_connections());
        i = i + 1;
    }
    ChainHealth {
        chain_id,
        healthy_nodes: healthy.len(),
        total_nodes: nodes.nodes.len(),
        total_connections: total,
    }
}

/// The nodes of each configured chain id, fresh and healthy, from the last entry
/// with that id.
pub open spec fn node_urls_upto(chains: Seq<ChainConfig>, n: int) -> Map<u64, Seq<Seq<char>>>
    decreases n,
{
    if n <= 0 {
        Map::empty()
    } else {
        node_urls_upto(chains, n - 1).insert(
            chains[n - 1].chain_id,
            string_views(chains[n - 1].nodes@),
        )
    }
}

/// The URLs of a node list, in order.
pub open spec fn node_urls(nodes: Seq<Arc<NodeHealth>>) -> Seq<Seq<char>> {
    nodes.map_values(|n: Arc<NodeHealth>| n.url@)
}

/// A fresh node list per configured chain id: the nodes of the last entry with
/// that id, all healthy.
pub fn build_chain_nodes(chains: &Vec<ChainConfig>) -> (r: HashMap<u64, NodeList>)
    ensures
        r@.dom() == node_urls_upto(chains@, chains@.len() as int).dom(),
        forall|id: u64|
            #[trigger] r@.contains_key(id) ==> node_urls(r@[id].nodes@) == node_urls_upto(
                chains@,
                chains@.len() as int,
            )[id] && forall|k: int| 0 <= k < r@[id].nodes@.len() ==> (#[trigger] r@[id].nodes@[k]).healthy,
{
    let mut m: HashMap<u64, NodeList> = HashMap::new();
    let mut i: usize = 0;
    while i < chains.len()
        invariant
            i <= chains@.len(),
            m@.dom() == node_urls_upto(chains@, i as int).dom(),
            forall|id: u64|
                #[trigger] m@.contains_key(id) ==> node_urls(m@[id].nodes@) == node_urls_upto(
                    chains@,
                    i as int,
                )[id] && forall|k: int| 0 <= k < m@[id].nodes@.len() ==> (#[trigger] m@[id].nodes@[k]).healthy,
        decreases chains@.len() - i,
    {
        let urls = clone_strings(&chains[i].nodes);
        let list = NodeList::new(urls);
        assert(node_urls(list.nodes@) =~= string_views(chains@[i as int].nodes@));
        m.insert(chains[i].chain_id, list);
        i = i + 1;
    }
    m
}

/// A copy of a list of strings.
pub fn clone_strings(v: &Vec<String>) -> (r: Vec<String>)
    ensures
        string_views(r@) == string_views(v@),
        r@.len() == v@.len(),
        forall|k: int| 0 <= k < v@.len() ==> (#[trigger] r@[k])@ == v@[k]@,
{
    let mut out: Vec<String> = Vec::new();
    let mut i: usize = 0;
    while i < v.len()
        invariant
            i <= v@.len(),
            out@.len() == i,
            forall|k: int| 0 <= k < i ==> (#[trigger] out@[k])@ == v@[k]@,
        decreases v@.len() - i,
    {
        out.push(v[i].clone());
        i = i + 1;
    }
    assert(string_views(out@) =~= string_views(v@));
    out
}

/// The HTTP method an extension route is served under.
#[derive(Debug, Clone, Copy, PartialEq, Eq, Structural)]
pub enum RouteMethod {
    Get,
    Post,
    Put,
    Delete,
    /// Any other method: the route answers GET requests with 405.
    NotAllowed,
}

/// The method a route's method name designates.
pub open spec fn route_method_spec(method: Seq<char>) -> RouteMethod {
    if method == "GET"@ {
        RouteMethod::Get
    } else if method == "POST"@ {
        RouteMethod::Post
    } else if method == "PUT"@ {
        RouteMethod::Put
    } else if method == "DELETE"@ {
        RouteMethod::Delete
    } else {
        RouteMethod::NotAllowed
    }
}

/// The method an extension route's method name designates.
pub fn route_method(method: &str) -> (r: RouteMethod)
    ensures
        r == route_method_spec(method@),
{
    if str_eq(method, "GET") {
        RouteMethod::Get
    } else if str_eq(method, "POST") {
        RouteMethod::Post
    } else if str_eq(method, "PUT") {
        RouteMethod::Put
    } else if str_eq(method, "DELETE") {
        RouteMethod::Delete
    } else {
        RouteMethod::NotAllowed
    }
}

/// Why an extension request has no handler.
#[derive(Debug, Clone, Copy, PartialEq, Eq, Structural)]
pub enum ExtensionRouteError {
    /// No extension of that name is loaded.
    ExtensionNotFound,
    /// The extension has no route for the path and method.
    RouteNotFound,
}

/// A route serves a request: its path template matches and its method is the request's.
pub open spec fn route_serves(r: RouteView, path: Seq<char>, method: Seq<char>) -> bool {
    path_bindings(r.path, path) is Some && r.method == method
}

/// Finds the route of an extension that serves a request: the first of the
/// extension's routes whose path template matches `route_path` and whose method
/// is `method`. Returns its position among the extension's routes.
pub fn find_extension_route(
    routes: &RouteTable,
    extension_name: &str,
    route_path: &str,
    method: &str,
) -> (r: Result<usize, ExtensionRouteError>)
    ensures
        !routes.view().contains_key(extension_name@) ==> r == Err::<usize, ExtensionRouteError>(
            ExtensionRouteError::ExtensionNotFound,
        ),
        routes.view().contains_key(extension_name@) ==> {
            let rs = routes.view()[extension_name@];
            match r {
                Ok(i) => {
                    &&& i < rs.len()
                    &&& route_serves(rs[i as int], route_path@, method@)
                    &&& forall|j: int| 0 <= j < i ==> !route_serves(#[trigger] rs[j], route_path@, method@)
                },
                Err(e) => e == ExtensionRouteError::RouteNotFound && forall|j: int|
                    0 <= j < rs.len() ==> !route_serves(#[trigger] rs[j], route_path@, method@),
            }
        },
{
    let list = match routes.get(extension_name) {
        Some(l) => l,
        None => return Err(ExtensionRouteError::ExtensionNotFound),
    };
    let ghost rs = routes_view(list@);
    let mut i: usize = 0;
    while i < list.len()
        invariant
            i <= list@.len(),
            rs == routes_view(list@),
            routes.view().contains_key(extension_name@),
            rs == routes.view()[extension_name@],
            forall|j: int| 0 <= j < i ==> !route_serves(#[trigger] rs[j], route_path@, method@),
        decreases list@.len() - i,
    {
        let r = &list[i];
        let matched = match_path(r.path.as_str(), route_path);
        assert(rs[i as int].path == r.path@ && rs[i as int].method == r.method@);
        if matched.is_some() && str_eq(r.method.as_str(), method) {
            return Ok(i);
        }
        i = i + 1;
    }
    Err(ExtensionRouteError::RouteNotFound)
}

/// The command-line flags for a list of parameters: `--name` then the value, for
/// each parameter in order.
pub open spec fn flag_pairs(params: Seq<(Seq<char>, Seq<char>)>) -> Seq<Seq<char>>
    decreases params.len(),
{
    if params.len() == 0 {
        Seq::empty()
    } else {
        flag_pairs(params.drop_last()) + seq!["--"@ + params.last().0, params.last().1]
    }
}

/// The arguments an extension command is run with: the path parameters and then
/// the query parameters as `--name value`, then the request body, when there is
/// one, as `--body` and its JSON text.
pub open spec fn extension_argument_list(
    path_params: Seq<(Seq<char>, Seq<char>)>,
    query_params: Seq<(Seq<char>, Seq<char>)>,
    body: Option<Seq<char>>,
) -> Seq<Seq<char>> {
    flag_pairs(path_params + query_params) + match body {
        Some(b) => seq!["--body"@, b],
        None => Seq::empty(),
    }
}

fn push_flag_pairs(out: &mut Vec<String>, params: &Vec<(String, String)>)
    ensures
        string_views(final(out)@) == string_views(old(out)@) + flag_pairs(pair_views(params@)),
{
    let ghost start = string_views(out@);
    let mut i: usize = 0;
    while i < params.len()
        invariant
            i <= params@.len(),
            string_views(out@) == start + flag_pairs(pair_views(params@).take(i as int)),
        decreases params@.len() - i,
    {
        let ghost before = string_views(out@);
        let flag = "--".to_owned().concat(params[i].0.as_str());
        let value = params[i].1.clone();
        out.push(flag);
        out.push(value);
        proof {
            let p = pair_views(params@);
            assert(p.take(i + 1).drop_last() =~= p.take(i as int));
            assert(p.take(i + 1).last() == p[i as int]);
            assert(string_views(out@) =~= before + seq!["--"@ + p[i as int].0, p[i as int].1]);
        }
        i = i + 1;
    }
    assert(pair_views(params@).take(params@.len() as int) =~= pair_views(params@));
}

/// The arguments an extension command is run with (see `extension_argument_list`).
pub fn extension_arguments(
    path_params: &Vec<(String, String)>,
    query_params: &Vec<(String, String)>,
    body: Option<&str>,
) -> (r: Vec<String>)
    ensures
        string_views(r@) == extension_argument_list(
            pair_views(path_params@),
            pair_views(query_params@),
            opt_view(body),
        ),
{
    let mut out: Vec<String> = Vec::new();
    push_flag_pairs(&mut out, path_params);
    push_flag_pairs(&mut out, query_params);
    proof {
        lemma_flag_pairs_concat(pair_views(path_params@), pair_views(query_params@));
    }
    let ghost flags = string_views(out@);
    match body {
        Some(b) => {
            out.push("--body".to_owned());
            out.push(b.to_owned());
            assert(string_views(out@) =~= flags + seq!["--body"@, b@]);
        },
        None => {
            assert(string_views(out@) =~= flags + Seq::<Seq<char>>::empty());
        },
    }
    out
}

/// The flags of two parameter lists in turn are the flags of the joined list.
proof fn lemma_flag_pairs_concat(a: Seq<(Seq<char>, Seq<char>)>, b: Seq<(Seq<char>, Seq<char>)>)
    ensures
        flag_pairs(a) + flag_pairs(b) == flag_pairs(a + b),
    decreases b.len(),
{
    if b.len() == 0 {
        assert(a + b =~= a);
        assert(flag_pairs(a) + flag_pairs(b) =~= flag_pairs(a));
    } else {
        lemma_flag_pairs_concat(a, b.drop_last());
        assert((a + b).drop_last() =~= a + b.drop_last());
        assert((a + b).last() == b.last());
        assert(flag_pairs(a) + flag_pairs(b) =~= flag_pairs(a) + flag_pairs(b.drop_last()) + seq![
            "--"@ + b.last().0,
            b.last().1,
        ]);
    }
}

} // verus!
