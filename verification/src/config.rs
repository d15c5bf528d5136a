//! Configuration of a node.

use vstd::prelude::*;

verus! {

/// The whole configuration.
#[derive(Debug, Clone)]
pub struct Config {
    pub network: NetworkConfig,
    pub database: DatabaseConfig,
    pub miner: MinerConfig,
    pub ai_validation: AIValidationConfig,
}

/// The ports that the node listens on.
#[derive(Debug, Clone)]
pub struct NetworkConfig {
    pub p2p_port: u16,
    pub api_port: u16,
}

/// Where the chain is stored.
#[derive(Debug, Clone)]
pub struct DatabaseConfig {
    pub path: String,
}

/// How the node mines.
#[derive(Debug, Clone)]
pub struct MinerConfig {
    pub threads: usize,
    pub beneficiary_address: String,
}

/// Settings of the heuristic validator that a node may consult beside
/// consensus validation.
#[derive(Debug, Clone)]
pub struct AIValidationConfig {
    pub enabled: bool,
    pub model: String,
    pub provider: String,
    pub timeout_secs: u64,
    pub enable_transaction_validation: bool,
    pub enable_for_all_clients: bool,
}

/// Whether a switch that is not set is on: it is.
pub fn default_enabled() -> (enabled: bool)
    ensures
        enabled,
{
    true
}

/// The model that is asked where none is set: none by name, which leaves
/// the choice to the provider.
pub fn default_model() -> (model: String)
    ensures
        model@ == ""@,
{
    "".to_owned()
}

/// The provider that is asked where none is set.
pub fn default_provider() -> (provider: String)
    ensures
        provider@ == "anthropic"@,
{
    "anthropic".to_owned()
}

/// The seconds that a request may take where no timeout is set.
pub fn default_timeout() -> (seconds: u64)
    ensures
        seconds == 30,
{
    30
}

impl Default for AIValidationConfig {
    fn default() -> (config: AIValidationConfig)
        ensures
            config.enabled,
            config.model@ == ""@,
            config.provider@ == "anthropic"@,
            config.timeout_secs == 30,
            config.enable_transaction_validation,
            config.enable_for_all_clients,
    {
        AIValidationConfig {
            enabled: default_enabled(),
            model: default_model(),
            provider: default_provider(),
            timeout_secs: default_timeout(),
            enable_transaction_validation: true,
            enable_for_all_clients: default_enabled(),
        }
    }
}

} // verus!
