//! The human-readable progress lines the orchestrator emits. Their wording is
//! a user-facing contract, so each builder pins the produced text exactly.

use vstd::prelude::*;
use crate::config::ConfigError;
use crate::deploy::{DeployError, DeployStep};

verus! {

/// `prefix`, then `rest`, character for character.
pub fn prefix_with(prefix: &str, rest: &str) -> (r: String)
    ensures
        r@ == prefix@ + rest@,
{
    let mut s = prefix.to_owned();
    s.append(rest);
    s
}

/// `prefix`, then `name`, then `suffix`, character for character.
pub fn wrap(prefix: &str, name: &str, suffix: &str) -> (r: String)
    ensures
        r@ == prefix@ + name@ + suffix@,
{
    let mut s = prefix.to_owned();
    s.append(name);
    s.append(suffix);
    s
}

/// Announced when a signing account's keys are created.
pub fn keys_message(account: &str) -> (r: String)
    ensures
        r@ == "creating keys for \""@ + account@ + "\""@,
{
    wrap("creating keys for \"", account, "\"")
}

/// Announced when the pass connects to the target network.
pub fn network_message(rpc_url: &str) -> (r: String)
    ensures
        r@ == "using network at "@ + rpc_url@,
{
    prefix_with("using network at ", rpc_url)
}

/// Announced before a contract's binary is installed on-chain.
pub fn install_message(contract: &str) -> (r: String)
    ensures
        r@ == "installing \""@ + contract@ + "\" wasm bytecode on-chain"@,
{
    wrap("installing \"", contract, "\" wasm bytecode on-chain")
}

/// Announced before a contract instance is created on-chain.
pub fn instantiate_message(contract: &str) -> (r: String)
    ensures
        r@ == "instantiating \""@ + contract@ + "\" smart contract"@,
{
    wrap("instantiating \"", contract, "\" smart contract")
}

/// Announced before a typed client is generated for a contract.
pub fn bind_message(contract: &str) -> (r: String)
    ensures
        r@ == "binding \""@ + contract@ + "\" contract"@,
{
    wrap("binding \"", contract, "\" contract")
}

/// Announced before a generated client is imported into the consuming project.
pub fn import_message(contract: &str) -> (r: String)
    ensures
        r@ == "\u{1f37d}\u{fe0f} importing \""@ + contract@ + "\" contract"@,
{
    wrap("\u{1f37d}\u{fe0f} importing \"", contract, "\" contract")
}

/// Announced when a contract's artifact hash matches the cached record.
pub fn up_to_date_message(contract: &str) -> (r: String)
    ensures
        r@ == "\u{2705} Contract \""@ + contract@ + "\" is up to date"@,
{
    wrap("\u{2705} Contract \"", contract, "\" is up to date")
}

/// Announced when an updated artifact is redeployed in a mutable environment.
pub fn updating_message(contract: &str) -> (r: String)
    ensures
        r@ == "\u{1f504} Updating contract \""@ + contract@ + "\""@,
{
    wrap("\u{1f504} Updating contract \"", contract, "\"")
}

/// The exact rejection line for a disallowed production update.
pub fn update_refused_message(contract: &str) -> (r: String)
    ensures
        r@ == "\u{26d4} \u{fe0f}Contract update not allowed in production for \""@ + contract@
            + "\""@,
{
    wrap("\u{26d4} \u{fe0f}Contract update not allowed in production for \"", contract, "\"")
}

/// The diagnostic for a configured contract that matches no workspace package
/// and no declared alias.
pub fn unknown_contract_message(contract: &str) -> (r: String)
    ensures
        r@ == "No contract named \""@ + contract@ + "\""@,
{
    wrap("No contract named \"", contract, "\"")
}

/// Announced when a contract's initialization script starts.
pub fn init_running_message(contract: &str) -> (r: String)
    ensures
        r@ == "Running initialization script for \""@ + contract@ + "\""@,
{
    wrap("Running initialization script for \"", contract, "\"")
}

/// The per-contract completion signal after a full init script succeeded.
pub fn init_done_message(contract: &str) -> (r: String)
    ensures
        r@ == "\u{2705} Initialization script for \""@ + contract@
            + "\" completed successfully"@,
{
    wrap("\u{2705} Initialization script for \"", contract, "\" completed successfully")
}

/// The progress line of one deploy step.
pub fn step_message(step: DeployStep, contract: &str) -> (r: String)
    ensures
        step is Install ==> r@ == "installing \""@ + contract@ + "\" wasm bytecode on-chain"@,
        step is Instantiate ==> r@ == "instantiating \""@ + contract@ + "\" smart contract"@,
        step is Bind ==> r@ == "binding \""@ + contract@ + "\" contract"@,
        step is Import ==> r@ == "\u{1f37d}\u{fe0f} importing \""@ + contract@ + "\" contract"@,
{
    match step {
        DeployStep::Install => install_message(contract),
        DeployStep::Instantiate => instantiate_message(contract),
        DeployStep::Bind => bind_message(contract),
        DeployStep::Import => import_message(contract),
    }
}

/// The diagnostic text of a configuration error.
pub fn config_error_message(e: &ConfigError) -> (r: String)
    ensures
        e matches ConfigError::UnknownContract { contract } ==> r@ == "No contract named \""@
            + contract@ + "\""@,
        e matches ConfigError::DuplicateAccount { account } ==> r@
            == "duplicate account name \""@ + account@ + "\""@,
        e matches ConfigError::Malformed { .. } ==> r@
            == "malformed environments file"@,
        e matches ConfigError::NoSuchEnvironment { name } ==> r@ == "no environment named \""@
            + name@ + "\""@,
{
    match e {
        ConfigError::UnknownContract { contract } => unknown_contract_message(contract.as_str()),
        ConfigError::DuplicateAccount { account } => wrap(
            "duplicate account name \"",
            account.as_str(),
            "\"",
        ),
        ConfigError::Malformed { .. } => "malformed environments file".to_owned(),
        ConfigError::NoSuchEnvironment { name } => wrap(
            "no environment named \"",
            name.as_str(),
            "\"",
        ),
    }
}

/// The diagnostic text of a deploy refusal.
pub fn deploy_error_message(e: &DeployError) -> (r: String)
    ensures
        e matches DeployError::UpdateNotAllowed { contract } ==> r@
            == "\u{26d4} \u{fe0f}Contract update not allowed in production for \""@ + contract@
            + "\""@,
{
    match e {
        DeployError::UpdateNotAllowed { contract } => update_refused_message(contract.as_str()),
    }
}

/// The diagnostic for an init-script line that failed: the contract name and
/// the offending line.
pub fn init_failed_message(contract: &str, line: &str) -> (r: String)
    ensures
        r@ == "initialization of \""@ + contract@ + "\" failed on line: "@ + line@,
{
    let head = wrap("initialization of \"", contract, "\" failed on line: ");
    prefix_with(head.as_str(), line)
}

} // verus!
