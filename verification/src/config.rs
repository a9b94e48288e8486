use crate::load_balancer::StrategyType;
use crate::server::{chain_with_id, Chain};
use vstd::prelude::*;

verus! {

/// One chain that the balancer serves.
pub struct ChainConfig {
    pub name: String,
    pub chain_id: u64,
    /// The network, when the configuration names it; otherwise derived from `chain_id`.
    pub chain: Option<Chain>,
    /// The URLs of the chain's RPC nodes.
    pub nodes: Vec<String>,
    pub load_balancing_strategy: StrategyType,
}

/// The balancer's configuration.
pub struct AppConfig {
    pub server_addr: String,
    /// Seconds between two rounds of node health checks.
    pub update_interval: u64,
    pub min_pool_size: usize,
    pub max_pool_size: usize,
    pub chains: Vec<ChainConfig>,
}

/// Why a configuration is refused.
#[derive(Debug, Clone, Copy, PartialEq, Eq, Structural)]
pub enum ConfigError {
    /// A chain without a named network has an id that designates none.
    UnsupportedChainId(u64),
    /// `update_interval` is 0.
    ZeroUpdateInterval,
    /// `min_pool_size` is 0.
    ZeroMinPoolSize,
    /// `max_pool_size` is smaller than `min_pool_size`.
    MaxPoolBelowMin,
    /// No chain is configured.
    NoChains,
    /// Some chain has no node.
    ChainWithoutNodes,
}

/// A chain entry with its network filled in from its id where none is named.
pub open spec fn completed_chain(c: ChainConfig) -> ChainConfig {
    match c.chain {
        Some(_) => c,
        None => ChainConfig { chain: chain_with_id(c.chain_id), ..c },
    }
}

/// The entry needs a network and its id designates none.
pub open spec fn unsupported(c: ChainConfig) -> bool {
    c.chain is None && chain_with_id(c.chain_id) is None
}

/// The id of the first chain entry that needs a network and cannot get one.
pub open spec fn first_unsupported(chains: Seq<ChainConfig>) -> Option<u64>
    decreases chains.len(),
{
    if chains.len() == 0 {
        None
    } else if unsupported(chains[0]) {
        Some(chains[0].chain_id)
    } else {
        first_unsupported(chains.drop_first())
    }
}

/// The error that a configuration is refused with, if any, by the first rule it breaks.
pub open spec fn config_error(c: AppConfig) -> Option<ConfigError> {
    if first_unsupported(c.chains@) is Some {
        Some(ConfigError::UnsupportedChainId(first_unsupported(c.chains@)->0))
    } else if c.update_interval == 0 {
        Some(ConfigError::ZeroUpdateInterval)
    } else if c.min_pool_size == 0 {
        Some(ConfigError::ZeroMinPoolSize)
    } else if c.max_pool_size < c.min_pool_size {
        Some(ConfigError::MaxPoolBelowMin)
    } else if c.chains@.len() == 0 {
        Some(ConfigError::NoChains)
    } else if exists|i: int| 0 <= i < c.chains@.len() && (#[trigger] c.chains@[i]).nodes@.len() == 0 {
        Some(ConfigError::ChainWithoutNodes)
    } else {
        None
    }
}

/// `r` is `c` with every chain entry completed.
pub open spec fn is_completion(r: AppConfig, c: AppConfig) -> bool {
    &&& r.server_addr == c.server_addr
    &&& r.update_interval == c.update_interval
    &&& r.min_pool_size == c.min_pool_size
    &&& r.max_pool_size == c.max_pool_size
    &&& r.chains@.len() == c.chains@.len()
    &&& forall|i: int| 0 <= i < c.chains@.len() ==> #[trigger] r.chains@[i] == completed_chain(c.chains@[i])
}

/// No entry before position `n` is unsupported exactly when the first unsupported one, if
/// any, lies at or past `n`.
proof fn lemma_first_unsupported(chains: Seq<ChainConfig>)
    ensures
        first_unsupported(chains) is None <==> forall|i: int| 0 <= i < chains.len() ==> !unsupported(#[trigger] chains[i]),
        first_unsupported(chains) matches Some(id) ==> exists|i: int|
            0 <= i < chains.len() && unsupported(#[trigger] chains[i]) && chains[i].chain_id == id
                && forall|j: int| 0 <= j < i ==> !unsupported(#[trigger] chains[j]),
    decreases chains.len(),
{
    if chains.len() > 0 {
        lemma_first_unsupported(chains.drop_first());
        if !unsupported(chains[0]) {
            assert forall|i: int| 1 <= i < chains.len() implies chains[i] == #[trigger] chains.drop_first()[i - 1] by {}
            if let Some(id) = first_unsupported(chains) {
                let k = choose|k: int|
                    0 <= k < chains.drop_first().len() && unsupported(#[trigger] chains.drop_first()[k])
                        && chains.drop_first()[k].chain_id == id
                        && forall|j: int| 0 <= j < k ==> !unsupported(#[trigger] chains.drop_first()[j]);
                assert(chains[k + 1] == chains.drop_first()[k]);
                assert forall|j: int| 0 <= j < k + 1 implies !unsupported(#[trigger] chains[j]) by {
                    if j > 0 {
                        assert(chains[j] == chains.drop_first()[j - 1]);
                    }
                }
            } else {
                assert forall|i: int| 0 <= i < chains.len() implies !unsupported(#[trigger] chains[i]) by {
                    if i > 0 {
                        assert(chains[i] == chains.drop_first()[i - 1]);
                    }
                }
            }
        }
    }
}

impl AppConfig {
    /// Completes and checks a configuration as read from its file: a chain entry
    /// without a network gets the one its id designates, and the configuration is
    /// refused, by the first rule it breaks, when an id designates none, when the
    /// update interval or the minimum pool size is 0, when the maximum pool size is
    /// below the minimum, when no chain is configured, or when a chain has no node.
    pub fn load(parsed: AppConfig) -> (r: Result<AppConfig, ConfigError>)
        ensures
            config_error(parsed) matches Some(e) ==> r == Err::<AppConfig, ConfigError>(e),
            config_error(parsed) is None ==> (r matches Ok(c) && is_completion(c, parsed)),
    {
        let AppConfig { server_addr, update_interval, min_pool_size, max_pool_size, chains } =
            parsed;
        let ghost orig = chains@;
        proof {
            lemma_first_unsupported(orig);
        }
        let mut rest = chains;
        let mut done: Vec<ChainConfig> = Vec::new();
        while rest.len() > 0
            invariant
                done@.len() + rest@.len() == orig.len(),
                rest@ == orig.subrange(done@.len() as int, orig.len() as int),
                forall|j: int| 0 <= j < done@.len() ==> !unsupported(#[trigger] orig[j]),
                forall|j: int| 0 <= j < done@.len() ==> #[trigger] done@[j] == completed_chain(orig[j]),
                orig == parsed.chains@,
            decreases rest@.len(),
        {
            let c = rest.remove(0);
            assert(c == orig[done@.len() as int]);
            let ChainConfig { name, chain_id, chain, nodes, load_balancing_strategy } = c;
            let chain = match chain {
                Some(ch) => Some(ch),
                None => match Chain::from_chain_id(chain_id) {
                    Some(ch) => Some(ch),
                    None => {
                        proof {
                            lemma_first_unsupported(orig);
                            let k = done@.len() as int;
                            assert(unsupported(orig[k]));
                            if let Some(id) = first_unsupported(orig) {
                                let i = choose|i: int|
                                    0 <= i < orig.len() && unsupported(#[trigger] orig[i]) && orig[i].chain_id == id
                                        && forall|j: int| 0 <= j < i ==> !unsupported(#[trigger] orig[j]);
                                assert(i == k);
                            }
                        }
                        return Err(ConfigError::UnsupportedChainId(chain_id));
                    },
                },
            };
            done.push(ChainConfig { name, chain_id, chain, nodes, load_balancing_strategy });
        }
        assert(first_unsupported(orig) is None);
        if update_interval == 0 {
            return Err(ConfigError::ZeroUpdateInterval);
        }
        if min_pool_size == 0 {
            return Err(ConfigError::ZeroMinPoolSize);
        }
        if max_pool_size < min_pool_size {
            return Err(ConfigError::MaxPoolBelowMin);
        }
        if done.len() == 0 {
            return Err(ConfigError::NoChains);
        }
        let mut i: usize = 0;
        while i < done.len()
            invariant
                i <= done@.len(),
                done@.len() == orig.len(),
                forall|j: int| 0 <= j < done@.len() ==> #[trigger] done@[j] == completed_chain(orig[j]),
                forall|j: int| 0 <= j < i ==> (#[trigger] orig[j]).nodes@.len() != 0,
                orig == parsed.chains@,
                first_unsupported(orig) is None,
                parsed.update_interval != 0,
                parsed.min_pool_size != 0,
                parsed.max_pool_size >= parsed.min_pool_size,
                orig.len() != 0,
            decreases done@.len() - i,
        {
            if done[i].nodes.len() == 0 {
                assert(orig[i as int].nodes@.len() == 0);
                return Err(ConfigError::ChainWithoutNodes);
            }
            i = i + 1;
        }
        Ok(AppConfig { server_addr, update_interval, min_pool_size, max_pool_size, chains: done })
    }
}

/// A configuration that loads names a network for every chain, and a network
/// filled in from an id is the one that serves that id.
pub proof fn lemma_loaded_chains_named(parsed: AppConfig, loaded: AppConfig, i: int)
    requires
        config_error(parsed) is None,
        is_completion(loaded, parsed),
        0 <= i < loaded.chains@.len(),
    ensures
        loaded.chains@[i].chain is Some,
        parsed.chains@[i].chain is None ==> crate::server::chain_id_of(loaded.chains@[i].chain->0)
            == loaded.chains@[i].chain_id,
{
    lemma_first_unsupported(parsed.chains@);
    assert(!unsupported(parsed.chains@[i]));
    if parsed.chains@[i].chain is None {
        crate::server::lemma_chain_with_id_exact(parsed.chains@[i].chain_id, loaded.chains@[i].chain->0);
    }
}

/// A configuration that loads meets every rule: its update interval and minimum
/// pool size are positive, its maximum pool size is at least its minimum, it has
/// a chain, and every chain has at least one node, the same nodes it was
/// configured with.
pub proof fn lemma_loaded_config_valid(parsed: AppConfig, loaded: AppConfig)
    requires
        config_error(parsed) is None,
        is_completion(loaded, parsed),
    ensures
        loaded.update_interval > 0,
        loaded.min_pool_size > 0,
        loaded.max_pool_size >= loaded.min_pool_size,
        loaded.chains@.len() > 0,
        forall|i: int| 0 <= i < loaded.chains@.len() ==> (#[trigger] loaded.chains@[i]).nodes@.len() > 0,
        forall|i: int| 0 <= i < loaded.chains@.len() ==> (#[trigger] loaded.chains@[i]).nodes@
            == parsed.chains@[i].nodes@,
{
    assert forall|i: int| 0 <= i < loaded.chains@.len() implies (#[trigger] loaded.chains@[i]).nodes@.len() > 0 by {
        assert(loaded.chains@[i] == completed_chain(parsed.chains@[i]));
        if parsed.chains@[i].nodes@.len() == 0 {
            assert(exists|k: int| 0 <= k < parsed.chains@.len() && (#[trigger] parsed.chains@[k]).nodes@.len() == 0);
        }
    }
    assert forall|i: int| 0 <= i < loaded.chains@.len() implies (#[trigger] loaded.chains@[i]).nodes@
        == parsed.chains@[i].nodes@ by {
        assert(loaded.chains@[i] == completed_chain(parsed.chains@[i]));
    }
}

/// A configuration with a chain that has no node, at whatever position, is
/// refused.
pub proof fn lemma_chain_without_nodes_refused(parsed: AppConfig, i: int)
    requires
        0 <= i < parsed.chains@.len(),
        parsed.chains@[i].nodes@.len() == 0,
    ensures
        config_error(parsed) is Some,
{
    assert(exists|k: int| 0 <= k < parsed.chains@.len() && (#[trigger] parsed.chains@[k]).nodes@.len() == 0);
}

} // verus!
