//! The deploy pipeline: which on-chain steps a classified contract gets, and
//! the environment-sensitive update policy that refuses to redeploy over a
//! production contract identifier.

use vstd::prelude::*;
use crate::cache::{ArtifactCache, ArtifactRecord, RecordModel, cache_key};
use crate::pipeline::{BuildClassification, copy_bytes};

verus! {

/// Whether redeploying over an existing on-chain contract identifier is
/// permitted in this environment.
#[derive(Clone, Copy, PartialEq, Eq, Structural, Debug)]
pub enum EnvClass {
    Mutable,
    Immutable,
}

/// One step of a contract's deploy chain, in the order the chain runs them.
#[derive(Clone, Copy, PartialEq, Eq, Structural, Debug)]
pub enum DeployStep {
    Install,
    Instantiate,
    Bind,
    Import,
}

/// A deploy refusal. The update policy names the contract it protected.
#[derive(Debug)]
pub enum DeployError {
    UpdateNotAllowed { contract: String },
}

/// The update policy: an updated artifact may not be redeployed in an
/// immutable (production-like) environment.
pub open spec fn update_refused(class: BuildClassification, env_class: EnvClass) -> bool {
    class is Updated && env_class is Immutable
}

/// Whether a step mutates on-chain state. Binding and importing a client are
/// purely local.
pub open spec fn step_mutates_chain(s: DeployStep) -> bool {
    s is Install || s is Instantiate
}

/// The steps a contract's classification earns, when the policy permits any:
/// a new contract runs the full chain; an unchanged contract is a no-op; an
/// updated contract is re-installed under its existing identifier. Client
/// binding and importing run only for contracts with `client = true`.
pub open spec fn spec_deploy_steps(class: BuildClassification, client: bool) -> Seq<DeployStep> {
    match class {
        BuildClassification::New => if client {
            seq![
                DeployStep::Install,
                DeployStep::Instantiate,
                DeployStep::Bind,
                DeployStep::Import,
            ]
        } else {
            seq![DeployStep::Install, DeployStep::Instantiate]
        },
        BuildClassification::Unchanged => Seq::empty(),
        BuildClassification::Updated => if client {
            seq![DeployStep::Install, DeployStep::Bind, DeployStep::Import]
        } else {
            seq![DeployStep::Install]
        },
    }
}

/// An unchanged contract performs no on-chain mutation at all.
pub proof fn lemma_unchanged_is_noop(client: bool)
    ensures
        spec_deploy_steps(BuildClassification::Unchanged, client) =~= Seq::<DeployStep>::empty(),
        forall|i: int|
            0 <= i < spec_deploy_steps(BuildClassification::Unchanged, client).len()
                ==> !step_mutates_chain(
                spec_deploy_steps(BuildClassification::Unchanged, client)[i],
            ),
{
}

/// Decide the deploy steps for one contract, applying the update policy.
///
/// Returns `UpdateNotAllowed`, naming the contract, exactly when the
/// classification is `Updated` and the environment is immutable; otherwise the
/// steps of `spec_deploy_steps`, in order.
pub fn plan_deploy(
    class: BuildClassification,
    env_class: EnvClass,
    client: bool,
    contract: &str,
) -> (r: Result<Vec<DeployStep>, DeployError>)
    ensures
        r is Err <==> update_refused(class, env_class),
        r matches Err(e) ==> e matches DeployError::UpdateNotAllowed { contract: c } && c@
            == contract@,
        r matches Ok(steps) ==> steps@ == spec_deploy_steps(class, client),
{
    match class {
        BuildClassification::New => {
            let mut steps: Vec<DeployStep> = Vec::new();
            steps.push(DeployStep::Install);
            steps.push(DeployStep::Instantiate);
            if client {
                steps.push(DeployStep::Bind);
                steps.push(DeployStep::Import);
            }
            proof {
                assert(steps@ =~= spec_deploy_steps(class, client));
            }
            Ok(steps)
        },
        BuildClassification::Unchanged => {
            let steps: Vec<DeployStep> = Vec::new();
            proof {
                assert(steps@ =~= spec_deploy_steps(class, client));
            }
            Ok(steps)
        },
        BuildClassification::Updated => {
            match env_class {
                EnvClass::Immutable => Err(
                    DeployError::UpdateNotAllowed { contract: contract.to_owned() },
                ),
                EnvClass::Mutable => {
                    let mut steps: Vec<DeployStep> = Vec::new();
                    steps.push(DeployStep::Install);
                    if client {
                        steps.push(DeployStep::Bind);
                        steps.push(DeployStep::Import);
                    }
                    proof {
                        assert(steps@ =~= spec_deploy_steps(class, client));
                    }
                    Ok(steps)
                },
            }
        },
    }
}

/// Conclude one contract's deploy, committing the cache record the policy
/// calls for. The caller runs the planned on-chain steps first, so the
/// on-chain mutation always precedes the cache commit.
///
/// - `New`: records the freshly minted identifier with the new hash.
/// - `Unchanged`: a no-op success; the cache keeps its record.
/// - `Updated` in a mutable environment: keeps the existing on-chain
///   identifier and records the new hash under it.
/// - `Updated` in an immutable environment: refused, naming the contract, and
///   the cache is untouched.
pub fn commit_outcome(
    cache: &mut ArtifactCache,
    env: &str,
    contract: &str,
    class: BuildClassification,
    env_class: EnvClass,
    hash: &Vec<u8>,
    minted_id: Option<&String>,
) -> (r: Result<(), DeployError>)
    requires
        old(cache).wf(),
        class is New ==> minted_id is Some,
        class is Updated && env_class is Mutable ==> old(cache)@.dom().contains(
            cache_key(env@, contract@),
        ),
    ensures
        final(cache).wf(),
        r is Err <==> update_refused(class, env_class),
        r matches Err(e) ==> e matches DeployError::UpdateNotAllowed { contract: c } && c@
            == contract@ && final(cache)@ == old(cache)@,
        class is Unchanged ==> final(cache)@ == old(cache)@,
        class is New ==> final(cache)@ == old(cache)@.insert(
            cache_key(env@, contract@),
            RecordModel { hash: hash@, contract_id: minted_id->Some_0@ },
        ),
        class is Updated && env_class is Mutable ==> final(cache)@ == old(cache)@.insert(
            cache_key(env@, contract@),
            RecordModel {
                hash: hash@,
                contract_id: old(cache)@[cache_key(env@, contract@)].contract_id,
            },
        ),
{
    match class {
        BuildClassification::Unchanged => Ok(()),
        BuildClassification::New => {
            let id: &String = minted_id.unwrap();
            let record = ArtifactRecord { hash: copy_bytes(hash), contract_id: id.clone() };
            proof {
                assert(record.hash@ == hash@);
            }
            cache.commit(env, contract, record);
            Ok(())
        },
        BuildClassification::Updated => {
            match env_class {
                EnvClass::Immutable => Err(
                    DeployError::UpdateNotAllowed { contract: contract.to_owned() },
                ),
                EnvClass::Mutable => {
                    let existing = cache.lookup(env, contract);
                    let existing_id = existing.unwrap().contract_id.clone();
                    let record = ArtifactRecord { hash: copy_bytes(hash), contract_id: existing_id };
                    cache.commit(env, contract, record);
                    Ok(())
                },
            }
        },
    }
}

} // verus!
