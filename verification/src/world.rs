//! The first step of a run: converging the root registry contract itself.
//! The registry is deployed at a deterministic address derived from the
//! configured seed, upgraded in place when a new version is declared, and
//! left alone when synced or when running in restricted (guest) mode.

use vstd::prelude::*;
use vstd::string::StringExecFns;
use crate::calls::{ClassArtifact, WorldStep};
use crate::config::MigrationConfig;
use crate::diff::WorldDiff;
use crate::felt::{spec_starknet_keccak, starknet_keccak_of};

verus! {

/// The artifact fields a registry step must carry: the registry's own
/// compiled class, labeled `world`.
pub open spec fn spec_world_artifact_ok(diff: WorldDiff, a: ClassArtifact) -> bool {
    &&& a.label@ == "world"@
    &&& a.casm_class_hash == diff.world.casm_class_hash
    &&& a.class_hash == diff.world.class_hash
}

/// What a correct registry step is, given the diff and the configuration:
/// nothing in guest mode or when synced, a deterministic deployment when
/// the registry is absent, one upgrade when a new version is declared.  The
/// deployment salt is derived from the configured seed alone.
pub open spec fn spec_world_step_ok(diff: WorldDiff, cfg: MigrationConfig, s: WorldStep) -> bool {
    if cfg.guest || diff.world.status is Synced {
        s is Unchanged
    } else if diff.world.status is NotDeployed {
        s matches WorldStep::Deploy { artifact, class_hash, salt } && spec_world_artifact_ok(
            diff,
            artifact,
        ) && class_hash == diff.world.class_hash && salt == spec_starknet_keccak(
            vstd::utf8::encode_utf8(cfg.seed@),
        )
    } else {
        s matches WorldStep::Upgrade { artifact, class_hash } && spec_world_artifact_ok(
            diff,
            artifact,
        ) && class_hash == diff.world.class_hash
    }
}

/// Whether the registry step does any work.
pub open spec fn spec_world_changed(diff: WorldDiff, cfg: MigrationConfig) -> bool {
    !cfg.guest && !(diff.world.status is Synced)
}

/// Plans the registry step.
pub fn plan_world(diff: &WorldDiff, cfg: &MigrationConfig) -> (s: WorldStep)
    ensures
        spec_world_step_ok(*diff, *cfg, s),
        (s is Unchanged) == !spec_world_changed(*diff, *cfg),
{
    if cfg.guest {
        return WorldStep::Unchanged;
    }
    match diff.world.status {
        crate::diff::WorldStatus::Synced => WorldStep::Unchanged,
        crate::diff::WorldStatus::NotDeployed => {
            let salt = starknet_keccak_of(cfg.seed.as_str().as_bytes());
            WorldStep::Deploy {
                artifact: ClassArtifact {
                    label: String::from_str("world"),
                    casm_class_hash: diff.world.casm_class_hash,
                    class_hash: diff.world.class_hash,
                },
                class_hash: diff.world.class_hash,
                salt,
            }
        },
        crate::diff::WorldStatus::NewVersion => WorldStep::Upgrade {
            artifact: ClassArtifact {
                label: String::from_str("world"),
                casm_class_hash: diff.world.casm_class_hash,
                class_hash: diff.world.class_hash,
            },
            class_hash: diff.world.class_hash,
        },
    }
}

} // verus!
