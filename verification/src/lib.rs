//! A diff-driven migration planner for a permissioned, namespaced resource
//! registry backed by an immutable ledger.
//!
//! Given an immutable snapshot of how the locally declared world diverges
//! from the remotely observed one, [`Migration::migrate`] computes the
//! ordered sequence of mutating operations that makes the remote state
//! match the local declaration: registry deployment or upgrade first, then
//! namespace registrations, resource registrations and upgrades with their
//! class artifacts, permission grants, one-time contract initializations,
//! and finally externally-owned contracts.  Executing the plan against the
//! remote target (and recomputing the diff) is the caller's part; because
//! every step is derived afresh from the diff, re-running a migration after
//! a partial failure never redoes completed work.

use vstd::prelude::*;

pub mod calls;
pub mod config;
pub mod declare;
pub mod diff;
pub mod error;
pub mod external;
pub mod felt;
pub mod init;
pub mod laws;
pub mod permissions;
pub mod resources;
pub mod world;

use crate::calls::{MigrationPlan, WorldStep};
use crate::config::MigrationConfig;
use crate::diff::{DiffStatus, ResourceKind, WorldDiff};
use crate::error::MigrationError;
use crate::external::{
    spec_external_artifacts, spec_external_deploy_indices, spec_external_deploys_match,
};
use crate::init::{spec_init_args_ok, spec_init_calls_match, spec_init_order};
use crate::permissions::spec_permission_calls;
use crate::resources::{spec_library_violation, spec_resource_artifacts, spec_resource_sync_calls};
use crate::world::{spec_world_changed, spec_world_step_ok};

verus! {

/// One migration run over one diff snapshot and one configuration.
#[derive(Debug)]
pub struct Migration {
    pub diff: WorldDiff,
    pub config: MigrationConfig,
}

/// One row of the audit manifest: the diff entry of one resource, rendered
/// read-only.
#[derive(Debug)]
pub struct ManifestEntry {
    pub selector: u64,
    pub tag: String,
    pub namespace: String,
    pub kind: ResourceKind,
    pub status: DiffStatus,
    pub class_hash: u64,
}

/// A read-only rendering of the diff for persistence and audit, built once
/// at the end of a run.
#[derive(Debug)]
pub struct Manifest {
    pub world_class_hash: u64,
    pub entries: Vec<ManifestEntry>,
}

/// The outcome of one run: whether any step has work to do, the plan of
/// that work, and the audit manifest.
#[derive(Debug)]
pub struct MigrationResult {
    pub has_changes: bool,
    pub manifest: Manifest,
    pub plan: MigrationPlan,
}

/// Whether planning succeeds: the diff reports no updated library among
/// the non-skipped resources, and the configured arguments of every
/// contract to initialize decode.
pub open spec fn spec_migrate_ok(diff: WorldDiff, cfg: MigrationConfig) -> bool {
    &&& !spec_library_violation(diff, cfg)
    &&& spec_init_args_ok(diff, cfg)
}

/// Whether any step of the run emits at least one call or one artifact:
/// the sole outward signal distinguishing work from nothing to do.
pub open spec fn spec_has_changes(diff: WorldDiff, cfg: MigrationConfig) -> bool {
    ||| spec_world_changed(diff, cfg)
    ||| spec_resource_sync_calls(diff, cfg).len() > 0
    ||| spec_resource_artifacts(diff, cfg).len() > 0
    ||| spec_permission_calls(diff, cfg).len() > 0
    ||| spec_init_order(diff, cfg).len() > 0
    ||| spec_external_artifacts(diff).len() > 0
    ||| spec_external_deploy_indices(diff).len() > 0
}

/// What a correct manifest is: one row per resource entry, in diff order,
/// carrying the entry's fields unchanged.
pub open spec fn spec_manifest_matches(diff: WorldDiff, m: Manifest) -> bool {
    &&& m.world_class_hash == diff.world.class_hash
    &&& m.entries@.len() == diff.resources@.len()
    &&& forall|i: int|
        0 <= i < diff.resources@.len() ==> ({
            let e = #[trigger] m.entries@[i];
            let r = diff.resources@[i];
            &&& e.selector == r.selector
            &&& e.tag@ == r.tag@
            &&& e.namespace@ == r.namespace@
            &&& e.kind == r.kind
            &&& e.status == r.status
            &&& e.class_hash == r.class_hash
        })
}

/// Builds the audit manifest from the diff.
fn build_manifest(diff: &WorldDiff) -> (m: Manifest)
    ensures
        spec_manifest_matches(*diff, m),
{
    let mut entries: Vec<ManifestEntry> = Vec::new();
    let mut i: usize = 0;
    while i < diff.resources.len()
        invariant
            0 <= i <= diff.resources@.len(),
            entries@.len() == i,
            forall|k: int|
                0 <= k < i ==> ({
                    let e = #[trigger] entries@[k];
                    let r = diff.resources@[k];
                    &&& e.selector == r.selector
                    &&& e.tag@ == r.tag@
                    &&& e.namespace@ == r.namespace@
                    &&& e.kind == r.kind
                    &&& e.status == r.status
                    &&& e.class_hash == r.class_hash
                }),
        decreases diff.resources@.len() - i,
    {
        let r = &diff.resources[i];
        entries.push(
            ManifestEntry {
                selector: r.selector,
                tag: r.tag.clone(),
                namespace: r.namespace.clone(),
                kind: r.kind,
                status: r.status,
                class_hash: r.class_hash,
            },
        );
        i += 1;
    }
    Manifest { world_class_hash: diff.world.class_hash, entries }
}

impl Migration {
    /// Creates a new migration over one diff snapshot and configuration.
    pub fn new(diff: WorldDiff, config: MigrationConfig) -> (m: Migration)
        ensures
            m.diff == diff,
            m.config == config,
    {
        Migration { diff, config }
    }

    /// Whether calls are flushed as one atomic batch (the default) rather
    /// than one by one.
    pub fn do_multicall(&self) -> (r: bool)
        ensures
            r == !self.config.disable_multicall,
    {
        self.config.do_multicall()
    }

    /// Plans one migration run: the full convergence protocol, strictly
    /// ordered, derived from the diff alone.
    ///
    /// Fails exactly when the diff reports a non-skipped updated library
    /// (`LibraryUpdate`) or a configured initialization argument is
    /// malformed (`InitCallArgs`); otherwise returns the plan, the audit
    /// manifest, and whether any step has work to do.
    pub fn migrate(&self) -> (r: Result<MigrationResult, MigrationError>)
        requires
            self.diff.wf(),
        ensures
            (r is Ok) == spec_migrate_ok(self.diff, self.config),
            r matches Ok(res) ==> ({
                &&& spec_world_step_ok(self.diff, self.config, res.plan.world)
                &&& (res.plan.world is Unchanged) == !spec_world_changed(self.diff, self.config)
                &&& res.plan.resource_calls@ == spec_resource_sync_calls(self.diff, self.config)
                &&& res.plan.artifacts@ == spec_resource_artifacts(self.diff, self.config)
                &&& res.plan.permission_calls@ == spec_permission_calls(self.diff, self.config)
                &&& spec_init_calls_match(self.diff, self.config, res.plan.init_calls@)
                &&& res.plan.external_artifacts@ == spec_external_artifacts(self.diff)
                &&& spec_external_deploys_match(self.diff, res.plan.external_deploys@)
                &&& res.has_changes == spec_has_changes(self.diff, self.config)
                &&& spec_manifest_matches(self.diff, res.manifest)
            }),
            r matches Err(e) ==> (if spec_library_violation(self.diff, self.config) {
                e is LibraryUpdate
            } else {
                e is InitCallArgs
            }),
    {
        let world = crate::world::plan_world(&self.diff, &self.config);

        let (resource_calls, artifacts) = match crate::resources::plan_resources(
            &self.diff,
            &self.config,
        ) {
            Ok(p) => p,
            Err(e) => {
                return Err(e);
            },
        };

        let permission_calls = crate::permissions::plan_permissions(&self.diff, &self.config);

        let init_calls = match crate::init::plan_inits(&self.diff, &self.config) {
            Ok(c) => c,
            Err(e) => {
                return Err(e);
            },
        };

        let (external_artifacts, external_deploys) = crate::external::plan_external(&self.diff);

        let has_changes = !matches!(world, WorldStep::Unchanged) || resource_calls.len() > 0
            || artifacts.len() > 0 || permission_calls.len() > 0 || init_calls.len() > 0
            || external_artifacts.len() > 0 || external_deploys.len() > 0;

        let manifest = build_manifest(&self.diff);

        Ok(
            MigrationResult {
                has_changes,
                manifest,
                plan: MigrationPlan {
                    world,
                    artifacts,
                    resource_calls,
                    permission_calls,
                    init_calls,
                    external_artifacts,
                    external_deploys,
                },
            },
        )
    }
}

} // verus!
