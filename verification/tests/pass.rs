//! Whole-pass scenarios: a simulated build pass drives the library exactly as
//! the command does — load and validate the environment, classify each
//! contract against the cache, apply the update policy, commit records, and
//! plan the init scripts — collecting the progress lines into one transcript.

use loam_cli::cache::ArtifactCache;
use loam_cli::config::{classify_environment, load};
use loam_cli::deploy::{commit_outcome, plan_deploy};
use loam_cli::init::{init_plan, invoke_line};
use loam_cli::messages::{
    config_error_message, deploy_error_message, init_done_message, init_running_message,
    keys_message, network_message, step_message, up_to_date_message, updating_message,
};
use loam_cli::pipeline::{classify_artifact, BuildClassification};

/// The compiled artifact of a contract: in these scenarios, a function of the
/// contract's name and of a per-contract source fingerprint (bumping the
/// fingerprint stands for editing the contract's source).
fn artifact_bytes(name: &str, sources: &[(&str, u8)]) -> Vec<u8> {
    let mut b: Vec<u8> = name.chars().map(|c| c as u8).collect();
    for (n, v) in sources {
        if *n == name {
            b.push(*v);
        }
    }
    b
}

/// One full pass; returns the transcript on success, the fatal diagnostic on
/// failure. Cache records mirror per-network on-chain state, so they are
/// keyed by the network endpoint and the contract name.
fn simulate_pass(
    cache: &mut ArtifactCache,
    config: &str,
    env_name: &str,
    packages: &[&str],
    sources: &[(&str, u8)],
) -> Result<String, String> {
    let pkgs: Vec<String> = packages.iter().map(|s| s.to_string()).collect();
    let mut err = String::new();
    let env = match load(config, env_name, &pkgs) {
        Ok(e) => e,
        Err(e) => return Err(config_error_message(&e)),
    };
    for a in &env.accounts {
        err.push_str(&keys_message(&a.name));
        err.push('\n');
    }
    err.push_str(&network_message(&env.network.rpc_url));
    err.push('\n');
    let env_class = classify_environment(&env.name);
    let net_key = env.network.rpc_url.clone();
    for c in &env.contracts {
        let bytes = artifact_bytes(&c.name, sources);
        let (hash, class) = classify_artifact(cache, &net_key, &c.name, &bytes);
        match class {
            BuildClassification::Unchanged => {
                err.push_str(&up_to_date_message(&c.name));
                err.push('\n');
            }
            BuildClassification::Updated => {
                err.push_str(&updating_message(&c.name));
                err.push('\n');
            }
            BuildClassification::New => {}
        }
        let steps = match plan_deploy(class, env_class, c.spec.client, &c.name) {
            Ok(s) => s,
            Err(e) => return Err(deploy_error_message(&e)),
        };
        for s in &steps {
            err.push_str(&step_message(*s, &c.name));
            err.push('\n');
        }
        let minted = format!("C_{}", c.name);
        match commit_outcome(cache, &net_key, &c.name, class, env_class, &hash, Some(&minted)) {
            Ok(()) => {}
            Err(e) => return Err(deploy_error_message(&e)),
        }
    }
    let default_account = match env.accounts.first() {
        Some(a) => a.name.clone(),
        None => String::new(),
    };
    for entry in &init_plan(&env.contracts, &default_account) {
        err.push_str(&init_running_message(&entry.contract));
        err.push('\n');
        for inv in &entry.invocations {
            err.push_str(&invoke_line(inv));
            err.push('\n');
        }
        err.push_str(&init_done_message(&entry.contract));
        err.push('\n');
    }
    Ok(err)
}

const BOILERPLATE_PACKAGES: [&str; 5] = [
    "hello_world",
    "soroban_increment_contract",
    "soroban_custom_types_contract",
    "soroban_auth_contract",
    "soroban_token_contract",
];

#[test]
fn contracts_built() {
    let contracts = [
        "soroban_auth_contract",
        "soroban_custom_types_contract",
        "hello_world",
        "soroban_increment_contract",
    ];
    let config = format!(
        r#"
production.accounts = [
    {{ name = "alice" }},
]

[production.network]
rpc-url = "http://localhost:8000/rpc"
network-passphrase = "Standalone Network ; February 2017"

[production.contracts]
{}
"#,
        contracts
            .iter()
            .map(|c| format!("{c}.workspace = true"))
            .collect::<Vec<String>>()
            .join("\n")
    );

    let mut cache = ArtifactCache::new();
    let stderr = simulate_pass(&mut cache, &config, "production", &BOILERPLATE_PACKAGES, &[])
        .expect("pass should succeed");
    assert!(stderr.contains("creating keys for \"alice\"\n"));
    assert!(stderr.contains("using network at http://localhost:8000/rpc\n"));

    for c in contracts {
        assert!(stderr.contains(&format!("installing \"{c}\" wasm bytecode on-chain")));
        assert!(stderr.contains(&format!("instantiating \"{c}\" smart contract")));
        assert!(stderr.contains(&format!("binding \"{c}\" contract")));
        assert!(stderr.contains(&format!("importing \"{c}\" contract")));
    }

    // check that contracts are actually deployed: each has a committed record
    // carrying its minted on-chain identifier
    for contract in contracts {
        let record = cache.lookup("http://localhost:8000/rpc", contract);
        assert!(record.is_some());
        assert!(record.unwrap().contract_id == format!("C_{contract}"));
    }
}

#[test]
fn contract_with_bad_name_prints_useful_error() {
    let config = r#"
production.accounts = [
    { name = "alice" },
]

[production.network]
rpc-url = "http://localhost:8000/rpc"
network-passphrase = "Standalone Network ; February 2017"

[production.contracts]
hello.workspace = true
"#;

    let mut cache = ArtifactCache::new();
    let result = simulate_pass(&mut cache, config, "production", &BOILERPLATE_PACKAGES, &[]);
    let message = result.expect_err("a bad contract name must fail the pass");
    assert!(message.contains("No contract named \"hello\""));
}

#[test]
fn contract_alias_skips_install() {
    let dev_config = r#"
development.accounts = [
    { name = "alice" },
]

[development.network]
rpc-url = "http://localhost:8000/rpc"
network-passphrase = "Standalone Network ; February 2017"

[development.contracts]
hello_world.workspace = true
"#;
    let mut cache = ArtifactCache::new();

    // ensure it imports
    let output = simulate_pass(&mut cache, dev_config, "development", &BOILERPLATE_PACKAGES, &[])
        .expect("Failed to execute command");
    assert!(output.contains("\u{1f37d}\u{fe0f} importing \"hello_world\" contract"));

    // ensure alias retrieval works
    let output2 = simulate_pass(&mut cache, dev_config, "development", &BOILERPLATE_PACKAGES, &[])
        .expect("Failed to execute command");
    assert!(output2.contains("\u{2705} Contract \"hello_world\" is up to date"));

    // ensure contract hash change check works, should update in dev mode
    let output3 = simulate_pass(
        &mut cache,
        dev_config,
        "development",
        &BOILERPLATE_PACKAGES,
        &[("hello_world", 1)],
    )
    .expect("Failed to execute command");
    println!("stderr: {}", output3);
    assert!(output3.contains("\u{1f504} Updating contract \"hello_world\""));

    let prod_config = r#"
production.accounts = [
    { name = "alice" },
]

[production.network]
rpc-url = "http://localhost:8000/rpc"
network-passphrase = "Standalone Network ; February 2017"

[production.contracts]
hello_world.workspace = true
"#;

    // ensure contract hash change check works, should throw error in production
    let output4 = simulate_pass(
        &mut cache,
        prod_config,
        "production",
        &BOILERPLATE_PACKAGES,
        &[("hello_world", 2)],
    );
    let message = output4.expect_err("a production update must be refused");
    assert!(message.contains(
        "\u{26d4} \u{fe0f}Contract update not allowed in production for \"hello_world\""
    ));
}

#[test]
fn build_command_runs_init() {
    let config = r#"
development.accounts = [
{ name = "alice" },
{ name = "bob" },
]

[development.network]
rpc-url = "http://localhost:8000/rpc"
network-passphrase = "Standalone Network ; February 2017"

[development.contracts]
hello_world.client = false
soroban_increment_contract.client = false
soroban_custom_types_contract.client = false
soroban_auth_contract.client = false

[development.contracts.soroban_token_contract]
client = true
init = """
initialize --symbol ABND --decimal 7 --name abundance --admin alice
mint --amount 2000000 --to alice
"""
"#;

    let mut cache = ArtifactCache::new();
    let output = simulate_pass(&mut cache, config, "development", &BOILERPLATE_PACKAGES, &[])
        .expect("Failed to execute command");
    println!("stderr: {}", output);
    // ensure the invoke commands are run with the proper source account
    assert!(output
        .contains(" -- initialize --symbol ABND --decimal 7 --name abundance --admin alice"));
    assert!(output.contains(" -- mint --amount 2000000 --to alice"));
    assert!(output.contains(
        "\u{2705} Initialization script for \"soroban_token_contract\" completed successfully"
    ));

    // ensure setting STELLAR_ACCOUNT works
    let config2 = r#"
development.accounts = [
{ name = "alice" },
{ name = "bob" },
]

[development.network]
rpc-url = "http://localhost:8000/rpc"
network-passphrase = "Standalone Network ; February 2017"

[development.contracts]
hello_world.client = false
soroban_increment_contract.client = false
soroban_custom_types_contract.client = false
soroban_auth_contract.client = false

[development.contracts.soroban_token_contract]
client = true
init = """
STELLAR_ACCOUNT=bob initialize --symbol ABND --decimal 7 --name abundance --admin bob
STELLAR_ACCOUNT=bob mint --amount 2000000 --to bob
"""
"#;
    let mut cache2 = ArtifactCache::new();
    let output = simulate_pass(&mut cache2, config2, "development", &BOILERPLATE_PACKAGES, &[])
        .expect("Failed to execute command");
    println!("stderr: {}", output);
    // ensure the invoke commands are run with the proper source account
    assert!(output.contains(
        "--source-account bob -- initialize --symbol ABND --decimal 7 --name abundance --admin bob"
    ));
    assert!(output.contains("--source-account bob -- mint --amount 2000000 --to bob"));
    assert!(output.contains(
        "\u{2705} Initialization script for \"soroban_token_contract\" completed successfully"
    ));
}

#[test]
fn init_handles_quotations_and_subcommands_in_script() {
    let binary_path_str = "stellar";
    let config = format!(
        r#"
    development.accounts = [
    {{ name = "me" }},
    ]

    [development.network]
    rpc-url = "http://localhost:8000/rpc"
    network-passphrase = "Standalone Network ; February 2017"

    [development.contracts]
    hello_world.client = false
    soroban_increment_contract.client = false
    soroban_auth_contract.client = false
    soroban_token_contract.client = false

    [development.contracts.soroban_custom_types_contract]
    client = true
    init = """
    test_init --resolution 300000 --assets '[{{"Stellar": "$({binary_path_str} contract id asset --asset native)"}} ]' --decimals 14 --base '{{"Stellar":"$({binary_path_str} contract id asset --asset native)"}}'
    """
    "#
    );

    let mut cache = ArtifactCache::new();
    let output = simulate_pass(&mut cache, &config, "development", &BOILERPLATE_PACKAGES, &[])
        .expect("Failed to execute command");
    println!("stderr: {}", output);

    // Check for the presence of the initialization commands in the output
    assert!(output.contains(" -- test_init --resolution 300000"));

    // Check for successful initialization message
    assert!(output.contains(
        "\u{2705} Initialization script for \"soroban_custom_types_contract\" completed successfully"
    ));
}

#[test]
fn init_scripts_run_in_specified_order() {
    let binary_path_str = "stellar";
    // First configuration: custom_types then token
    let config = format!(
        r#"
development.accounts = [
{{ name = "alice" }},
{{ name = "bob" }},
]

[development.network]
rpc-url = "http://localhost:8000/rpc"
network-passphrase = "Standalone Network ; February 2017"

[development.contracts]
hello_world.client = false
soroban_increment_contract.client = false
soroban_auth_contract.client = false

[development.contracts.soroban_custom_types_contract]
client = true
init = """
test_init --resolution 300000 --assets '[{{"Stellar": "$({binary_path_str} contract id asset --asset native)"}} ]' --decimals 14 --base '{{"Stellar":"$({binary_path_str} contract id asset --asset native)"}}'
"""

[development.contracts.soroban_token_contract]
client = true
init = """
STELLAR_ACCOUNT=bob initialize --symbol ABND --decimal 7 --name abundance --admin bob
STELLAR_ACCOUNT=bob mint --amount 2000000 --to bob
"""
"#
    );

    let mut cache = ArtifactCache::new();
    let stderr = simulate_pass(&mut cache, &config, "development", &BOILERPLATE_PACKAGES, &[])
        .expect("Failed to execute command");

    // Check order of initialization
    let custom_types_index = stderr
        .find("Running initialization script for \"soroban_custom")
        .expect("Custom types init not found");
    let token_index = stderr
        .find("Running initialization script for \"soroban_token")
        .expect("Token init not found");
    assert!(
        custom_types_index < token_index,
        "Custom types should be initialized before token"
    );

    // Second configuration: token then custom_types
    let config2 = format!(
        r#"
development.accounts = [
{{ name = "alice" }},
{{ name = "bob" }},
]

[development.network]
rpc-url = "http://localhost:8000/rpc"
network-passphrase = "Standalone Network ; February 2017"

[development.contracts]
hello_world.client = false
soroban_increment_contract.client = false
soroban_auth_contract.client = false

[development.contracts.soroban_token_contract]
client = true
init = """
STELLAR_ACCOUNT=bob initialize --symbol ABND --decimal 7 --name abundance --admin bob
STELLAR_ACCOUNT=bob mint --amount 2000000 --to bob
"""

[development.contracts.soroban_custom_types_contract]
client = true
init = """
test_init --resolution 300000 --assets '[{{"Stellar": "$({binary_path_str} contract id asset --asset native)"}} ]' --decimals 14 --base '{{"Stellar":"$({binary_path_str} contract id asset --asset native)"}}'
"""
"#
    );

    let mut cache2 = ArtifactCache::new();
    let stderr = simulate_pass(&mut cache2, &config2, "development", &BOILERPLATE_PACKAGES, &[])
        .expect("Failed to execute command");

    // Check order of initialization
    let token_index = stderr
        .find("Running initialization script for \"soroban_token")
        .expect("Token init not found");
    let custom_types_index = stderr
        .find("Running initialization script for \"soroban_custom")
        .expect("Custom types init not found");
    assert!(
        token_index < custom_types_index,
        "Token should be initialized before custom types"
    );
}
