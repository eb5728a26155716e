//! The last step of a run: externally-owned contracts.  Their classes are
//! published like any other artifact, and every contract the diff marks as
//! newly created is deployed deterministically from its class reference, a
//! configured salt and raw constructor data that this layer does not
//! interpret.

use vstd::prelude::*;
use crate::calls::{ClassArtifact, DeployCall};
use crate::diff::WorldDiff;
use crate::resources::spec_contains_casm;

verus! {

/// External class artifacts collected from the first `n` class entries:
/// one per class in `Created` state, de-duplicated by content hash.
pub open spec fn spec_external_artifacts_upto(diff: WorldDiff, n: int) -> Seq<ClassArtifact>
    decreases n,
{
    if n <= 0 {
        Seq::empty()
    } else {
        let c = diff.external_classes@[n - 1];
        let prev = spec_external_artifacts_upto(diff, n - 1);
        if c.status is Created && !spec_contains_casm(prev, c.casm_class_hash) {
            prev + seq![
                ClassArtifact {
                    label: c.name,
                    casm_class_hash: c.casm_class_hash,
                    class_hash: c.class_hash,
                },
            ]
        } else {
            prev
        }
    }
}

/// The de-duplicated external class artifacts of the diff.
pub open spec fn spec_external_artifacts(diff: WorldDiff) -> Seq<ClassArtifact> {
    spec_external_artifacts_upto(diff, diff.external_classes@.len() as int)
}

/// Indices of the external contract entries in `Created` state among the
/// first `n`, in diff order: those get one deployment each.
pub open spec fn spec_external_deploy_indices_upto(diff: WorldDiff, n: int) -> Seq<int>
    decreases n,
{
    if n <= 0 {
        Seq::empty()
    } else {
        spec_external_deploy_indices_upto(diff, n - 1) + if diff.external_contracts@[n
            - 1].status is Created {
            seq![n - 1]
        } else {
            Seq::empty()
        }
    }
}

/// Indices of all external contract entries to deploy.
pub open spec fn spec_external_deploy_indices(diff: WorldDiff) -> Seq<int> {
    spec_external_deploy_indices_upto(diff, diff.external_contracts@.len() as int)
}

/// What a correct external deployment sequence is: one deterministic
/// deployment per newly created external contract, in diff order, each
/// carrying the contract's class reference, salt and constructor data.
pub open spec fn spec_external_deploys_match(diff: WorldDiff, deploys: Seq<DeployCall>) -> bool {
    let idxs = spec_external_deploy_indices(diff);
    &&& deploys.len() == idxs.len()
    &&& forall|k: int|
        0 <= k < idxs.len() ==> ({
            let e = diff.external_contracts@[idxs[k]];
            &&& (#[trigger] deploys[k]).class_hash == e.class_hash
            &&& deploys[k].salt == e.salt
            &&& deploys[k].constructor_calldata@ == e.constructor_calldata@
        })
}

/// Plans the external contract step: the class artifacts to publish and
/// the deployments to issue once they are published.
pub fn plan_external(diff: &WorldDiff) -> (r: (Vec<ClassArtifact>, Vec<DeployCall>))
    ensures
        r.0@ == spec_external_artifacts(*diff),
        spec_external_deploys_match(*diff, r.1@),
{
    let mut artifacts: Vec<ClassArtifact> = Vec::new();
    let mut i: usize = 0;
    while i < diff.external_classes.len()
        invariant
            0 <= i <= diff.external_classes@.len(),
            artifacts@ == spec_external_artifacts_upto(*diff, i as int),
        decreases diff.external_classes@.len() - i,
    {
        let c = &diff.external_classes[i];
        if matches!(c.status, crate::diff::DiffStatus::Created) {
            if !crate::resources::contains_casm_artifact(&artifacts, c.casm_class_hash) {
                artifacts.push(
                    ClassArtifact {
                        label: c.name.clone(),
                        casm_class_hash: c.casm_class_hash,
                        class_hash: c.class_hash,
                    },
                );
            }
        }
        i += 1;
    }

    let mut deploys: Vec<DeployCall> = Vec::new();
    let mut j: usize = 0;
    while j < diff.external_contracts.len()
        invariant
            0 <= j <= diff.external_contracts@.len(),
            ({
                let idxs = spec_external_deploy_indices_upto(*diff, j as int);
                &&& deploys@.len() == idxs.len()
                &&& forall|k: int|
                    0 <= k < idxs.len() ==> ({
                        let e = diff.external_contracts@[idxs[k]];
                        &&& (#[trigger] deploys@[k]).class_hash == e.class_hash
                        &&& deploys@[k].salt == e.salt
                        &&& deploys@[k].constructor_calldata@ == e.constructor_calldata@
                    })
            }),
        decreases diff.external_contracts@.len() - j,
    {
        let e = &diff.external_contracts[j];
        if matches!(e.status, crate::diff::DiffStatus::Created) {
            deploys.push(
                DeployCall {
                    class_hash: e.class_hash,
                    salt: e.salt,
                    constructor_calldata: e.constructor_calldata.clone(),
                },
            );
        }
        j += 1;
    }
    (artifacts, deploys)
}

} // verus!
