//! The cache, the classification, and the update policy: idempotence, hash
//! sensitivity, the production guard, development mutability, and the exact
//! wording of the progress and diagnostic lines.

use loam_cli::cache::{ArtifactCache, ArtifactRecord};
use loam_cli::config::{classify_environment, load, validate_accounts, Account, ConfigError};
use loam_cli::deploy::{commit_outcome, plan_deploy, DeployError, DeployStep, EnvClass};
use loam_cli::messages::{
    bind_message, config_error_message, deploy_error_message, import_message, init_done_message,
    init_failed_message, init_running_message, install_message, instantiate_message, keys_message,
    network_message, unknown_contract_message, up_to_date_message, update_refused_message,
    updating_message,
};
use loam_cli::pipeline::{classify, classify_artifact, BuildClassification};

#[test]
fn classification_against_the_cache() {
    // no record: new
    assert_eq!(classify(None, &vec![1, 2, 3]), BuildClassification::New);
    // same hash: unchanged
    let record = ArtifactRecord { hash: vec![1, 2, 3], contract_id: "C1".to_string() };
    assert_eq!(classify(Some(&record), &vec![1, 2, 3]), BuildClassification::Unchanged);
    // different hash: updated
    assert_eq!(classify(Some(&record), &vec![1, 2, 4]), BuildClassification::Updated);
}

#[test]
fn digest_content_addresses_artifacts() {
    let cache = ArtifactCache::new();
    let (h1, c1) = classify_artifact(&cache, "net", "a", &vec![1, 2, 3]);
    let (h2, _) = classify_artifact(&cache, "net", "a", &vec![1, 2, 3]);
    let (h3, _) = classify_artifact(&cache, "net", "a", &vec![1, 2, 4]);
    assert_eq!(c1, BuildClassification::New);
    // a real digest: fixed width, equal for equal bytes, sensitive to a byte
    assert_eq!(h1.len(), 32);
    assert_eq!(h1, h2);
    assert_ne!(h1, h3);
}

#[test]
fn second_pass_is_idempotent() {
    // first pass: new; commit; second pass over identical bytes: unchanged,
    // and the plan holds no step at all, so no on-chain mutation
    let mut cache = ArtifactCache::new();
    let bytes: Vec<u8> = vec![10, 20, 30];
    let (hash, class) = classify_artifact(&cache, "net", "c", &bytes);
    assert_eq!(class, BuildClassification::New);
    let minted = "C_c".to_string();
    commit_outcome(&mut cache, "net", "c", class, EnvClass::Mutable, &hash, Some(&minted))
        .unwrap();

    let (_, class2) = classify_artifact(&cache, "net", "c", &bytes);
    assert_eq!(class2, BuildClassification::Unchanged);
    let steps = plan_deploy(class2, EnvClass::Mutable, true, "c").unwrap();
    assert_eq!(steps.len(), 0);
}

#[test]
fn hash_change_reclassifies_only_that_contract() {
    let mut cache = ArtifactCache::new();
    for (name, byte) in [("a", 1u8), ("b", 2u8)] {
        let bytes = vec![byte];
        let (hash, class) = classify_artifact(&cache, "net", name, &bytes);
        let minted = format!("C_{name}");
        commit_outcome(&mut cache, "net", name, class, EnvClass::Mutable, &hash, Some(&minted))
            .unwrap();
    }
    // one byte of a's artifact changes; b's does not
    let (_, class_a) = classify_artifact(&cache, "net", "a", &vec![1, 9]);
    let (_, class_b) = classify_artifact(&cache, "net", "b", &vec![2]);
    assert_eq!(class_a, BuildClassification::Updated);
    assert_eq!(class_b, BuildClassification::Unchanged);
}

#[test]
fn production_guard_refuses_update_and_keeps_record() {
    let mut cache = ArtifactCache::new();
    let old_hash: Vec<u8> = vec![1; 32];
    cache.commit("net", "c", ArtifactRecord { hash: old_hash.clone(), contract_id: "C_c".into() });

    let planned = plan_deploy(BuildClassification::Updated, EnvClass::Immutable, true, "c");
    match planned {
        Err(DeployError::UpdateNotAllowed { ref contract }) => assert_eq!(contract, "c"),
        _ => panic!("an update in an immutable environment must be refused"),
    }

    let new_hash: Vec<u8> = vec![2; 32];
    let refused = commit_outcome(
        &mut cache,
        "net",
        "c",
        BuildClassification::Updated,
        EnvClass::Immutable,
        &new_hash,
        None,
    );
    assert!(matches!(refused, Err(DeployError::UpdateNotAllowed { .. })));
    assert_eq!(
        deploy_error_message(&refused.unwrap_err()),
        "\u{26d4} \u{fe0f}Contract update not allowed in production for \"c\""
    );
    // the record is unchanged afterward
    let record = cache.lookup("net", "c").unwrap();
    assert_eq!(record.hash, old_hash);
    assert_eq!(record.contract_id, "C_c");
}

#[test]
fn dev_update_keeps_identifier_and_commits_new_hash() {
    let mut cache = ArtifactCache::new();
    let old_hash: Vec<u8> = vec![1; 32];
    cache.commit("net", "c", ArtifactRecord { hash: old_hash, contract_id: "C_c".into() });

    // the plan re-installs (and re-binds the client) but never re-instantiates
    let steps = plan_deploy(BuildClassification::Updated, EnvClass::Mutable, true, "c").unwrap();
    assert_eq!(steps, vec![DeployStep::Install, DeployStep::Bind, DeployStep::Import]);
    let steps = plan_deploy(BuildClassification::Updated, EnvClass::Mutable, false, "c").unwrap();
    assert_eq!(steps, vec![DeployStep::Install]);

    let new_hash: Vec<u8> = vec![2; 32];
    commit_outcome(
        &mut cache,
        "net",
        "c",
        BuildClassification::Updated,
        EnvClass::Mutable,
        &new_hash,
        None,
    )
    .unwrap();
    let record = cache.lookup("net", "c").unwrap();
    // the on-chain identifier is kept; the recorded hash is the new one
    assert_eq!(record.contract_id, "C_c");
    assert_eq!(record.hash, new_hash);
}

#[test]
fn new_contract_runs_the_full_chain() {
    let steps = plan_deploy(BuildClassification::New, EnvClass::Immutable, true, "c").unwrap();
    assert_eq!(
        steps,
        vec![DeployStep::Install, DeployStep::Instantiate, DeployStep::Bind, DeployStep::Import]
    );
    let steps = plan_deploy(BuildClassification::New, EnvClass::Immutable, false, "c").unwrap();
    assert_eq!(steps, vec![DeployStep::Install, DeployStep::Instantiate]);
}

#[test]
fn cache_overwrites_by_key_and_keeps_other_keys() {
    let mut cache = ArtifactCache::new();
    cache.commit("n1", "a", ArtifactRecord { hash: vec![1], contract_id: "A1".into() });
    cache.commit("n1", "b", ArtifactRecord { hash: vec![2], contract_id: "B1".into() });
    cache.commit("n2", "a", ArtifactRecord { hash: vec![3], contract_id: "A2".into() });
    cache.commit("n1", "a", ArtifactRecord { hash: vec![9], contract_id: "A9".into() });

    assert_eq!(cache.lookup("n1", "a").unwrap().hash, vec![9]);
    assert_eq!(cache.lookup("n1", "a").unwrap().contract_id, "A9");
    assert_eq!(cache.lookup("n1", "b").unwrap().contract_id, "B1");
    assert_eq!(cache.lookup("n2", "a").unwrap().contract_id, "A2");
    assert!(cache.lookup("n2", "b").is_none());
}

#[test]
fn environment_class_follows_the_name() {
    assert_eq!(classify_environment("production"), EnvClass::Immutable);
    assert_eq!(classify_environment("development"), EnvClass::Mutable);
    assert_eq!(classify_environment("staging"), EnvClass::Mutable);
}

#[test]
fn progress_lines_are_worded_exactly() {
    assert_eq!(keys_message("alice"), "creating keys for \"alice\"");
    assert_eq!(network_message("http://x"), "using network at http://x");
    assert_eq!(install_message("c"), "installing \"c\" wasm bytecode on-chain");
    assert_eq!(instantiate_message("c"), "instantiating \"c\" smart contract");
    assert_eq!(bind_message("c"), "binding \"c\" contract");
    assert_eq!(import_message("c"), "\u{1f37d}\u{fe0f} importing \"c\" contract");
    assert_eq!(up_to_date_message("c"), "\u{2705} Contract \"c\" is up to date");
    assert_eq!(updating_message("c"), "\u{1f504} Updating contract \"c\"");
    assert_eq!(
        update_refused_message("c"),
        "\u{26d4} \u{fe0f}Contract update not allowed in production for \"c\""
    );
    assert_eq!(unknown_contract_message("h"), "No contract named \"h\"");
    assert_eq!(init_running_message("c"), "Running initialization script for \"c\"");
    assert_eq!(
        init_done_message("c"),
        "\u{2705} Initialization script for \"c\" completed successfully"
    );
    assert_eq!(
        init_failed_message("c", "mint --x"),
        "initialization of \"c\" failed on line: mint --x"
    );
}

#[test]
fn config_errors_name_their_subject() {
    let packages = vec!["real".to_string()];

    // an unknown contract fails fast, naming the bad key
    let config = "[production.contracts]\nghost.workspace = true\n";
    let e = load(config, "production", &packages).unwrap_err();
    assert!(matches!(e, ConfigError::UnknownContract { ref contract } if contract == "ghost"));
    assert_eq!(config_error_message(&e), "No contract named \"ghost\"");

    // a duplicated account name is refused
    let accounts = vec![
        Account { name: "alice".to_string() },
        Account { name: "alice".to_string() },
    ];
    let e = validate_accounts(&accounts).unwrap_err();
    assert!(matches!(e, ConfigError::DuplicateAccount { ref account } if account == "alice"));

    // an environment that is not declared is refused by name
    let e = load("[other.contracts]\nreal.workspace = true\n", "production", &packages)
        .unwrap_err();
    assert!(matches!(e, ConfigError::NoSuchEnvironment { ref name } if name == "production"));

    // unreadable text is refused
    let e = load("= broken", "production", &packages).unwrap_err();
    assert!(matches!(e, ConfigError::Malformed { .. }));
    assert_eq!(config_error_message(&e), "malformed environments file");
}

#[test]
fn alias_resolves_a_contract_outside_the_workspace() {
    let packages = vec!["real".to_string()];
    let config = r#"
production.accounts = [ { name = "alice" } ]

[production.network]
rpc-url = "http://localhost:8000/rpc"
network-passphrase = "p"

[production.contracts]
real.workspace = true

[production.contracts.published]
workspace = false
id = "CABC123"
"#;
    let env = load(config, "production", &packages).unwrap();
    assert_eq!(env.contracts.len(), 2);
    assert_eq!(env.contracts[0].name, "real");
    assert_eq!(env.contracts[1].name, "published");
    assert_eq!(env.contracts[1].spec.alias.as_deref(), Some("CABC123"));
    assert_eq!(env.network.rpc_url, "http://localhost:8000/rpc");
    assert_eq!(env.accounts.len(), 1);
    assert_eq!(env.accounts[0].name, "alice");
}
