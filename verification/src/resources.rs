//! The resource synchronization step: namespace registrations first, then
//! one register or upgrade call per diverging resource, together with the
//! de-duplicated set of class artifacts those calls reference.

use vstd::prelude::*;
use crate::calls::{Call, ClassArtifact};
use crate::config::MigrationConfig;
use crate::diff::{DiffStatus, ResourceEntry, ResourceKind, WorldDiff};
use crate::error::MigrationError;

verus! {

/// Index of the resource entry carrying `selector`; meaningful when such an
/// entry exists, unique under well-formedness.
pub open spec fn spec_resource_index(diff: WorldDiff, selector: u64) -> int {
    choose|k: int|
        0 <= k < diff.resources@.len() && (#[trigger] diff.resources@[k]).selector == selector
}

/// The register or upgrade calls one resource entry contributes: one call
/// when its code diverges, none when it is synced.  Namespaces are handled
/// by the namespace registration pass, and an updated library contributes
/// nothing here because it is a diff-producer contract violation.
pub open spec fn spec_resource_calls(r: ResourceEntry) -> Seq<Call> {
    match r.status {
        DiffStatus::Created => match r.kind {
            ResourceKind::Namespace => Seq::empty(),
            ResourceKind::Contract => seq![
                Call::RegisterContract {
                    selector: r.selector,
                    namespace: r.namespace,
                    class_hash: r.class_hash,
                },
            ],
            ResourceKind::Library => seq![
                Call::RegisterLibrary {
                    namespace: r.namespace,
                    class_hash: r.class_hash,
                    name: r.name,
                    version: r.version,
                },
            ],
            ResourceKind::Model => seq![
                Call::RegisterModel { namespace: r.namespace, class_hash: r.class_hash },
            ],
            ResourceKind::Event => seq![
                Call::RegisterEvent { namespace: r.namespace, class_hash: r.class_hash },
            ],
        },
        DiffStatus::Updated => match r.kind {
            ResourceKind::Namespace => Seq::empty(),
            ResourceKind::Contract => seq![
                Call::UpgradeContract { namespace: r.namespace, class_hash: r.class_hash },
            ],
            ResourceKind::Library => Seq::empty(),
            ResourceKind::Model => seq![
                Call::UpgradeModel { namespace: r.namespace, class_hash: r.class_hash },
            ],
            ResourceKind::Event => seq![
                Call::UpgradeEvent { namespace: r.namespace, class_hash: r.class_hash },
            ],
        },
        DiffStatus::Synced => Seq::empty(),
    }
}

/// The class artifact one resource entry asks to publish, if any.
pub open spec fn spec_resource_artifact(r: ResourceEntry) -> Option<ClassArtifact> {
    if r.kind is Namespace {
        None
    } else if r.status is Created || (r.status is Updated && !(r.kind is Library)) {
        Some(
            ClassArtifact {
                label: r.tag,
                casm_class_hash: r.casm_class_hash,
                class_hash: r.class_hash,
            },
        )
    } else {
        None
    }
}

/// Whether an artifact with content hash `h` is already collected.
pub open spec fn spec_contains_casm(s: Seq<ClassArtifact>, h: u64) -> bool {
    exists|i: int| 0 <= i < s.len() && (#[trigger] s[i]).casm_class_hash == h
}

/// The diff reports an updated library among the non-skipped resources: a
/// contract violation by the diff producer, fatal for the run.
pub open spec fn spec_library_violation(diff: WorldDiff, cfg: MigrationConfig) -> bool {
    exists|i: int|
        0 <= i < diff.resources@.len() && !cfg.spec_is_skipped(
            (#[trigger] diff.resources@[i]).tag@,
        ) && diff.resources@[i].kind is Library && diff.resources@[i].status is Updated
}

/// Namespace registration calls contributed by the first `n` listed
/// namespace selectors: one call per namespace in `Created` state.  The
/// skip list does not apply here, because every other resource presumes its
/// namespace registered.
pub open spec fn spec_namespace_calls_upto(diff: WorldDiff, n: int) -> Seq<Call>
    decreases n,
{
    if n <= 0 {
        Seq::empty()
    } else {
        let r = diff.resources@[spec_resource_index(diff, diff.namespaces@[n - 1])];
        spec_namespace_calls_upto(diff, n - 1) + if r.status is Created {
            seq![Call::RegisterNamespace { name: r.name }]
        } else {
            Seq::empty()
        }
    }
}

/// All namespace registration calls of the diff.
pub open spec fn spec_namespace_calls(diff: WorldDiff) -> Seq<Call> {
    spec_namespace_calls_upto(diff, diff.namespaces@.len() as int)
}

/// Register and upgrade calls contributed by the first `n` resource
/// entries, skipped resources excluded.
pub open spec fn spec_kind_calls_upto(diff: WorldDiff, cfg: MigrationConfig, n: int) -> Seq<Call>
    decreases n,
{
    if n <= 0 {
        Seq::empty()
    } else {
        let r = diff.resources@[n - 1];
        spec_kind_calls_upto(diff, cfg, n - 1) + if cfg.spec_is_skipped(r.tag@) {
            Seq::empty()
        } else {
            spec_resource_calls(r)
        }
    }
}

/// The full call sequence of the resource synchronization step: namespace
/// registrations first, then the per-resource register and upgrade calls in
/// diff order.
pub open spec fn spec_resource_sync_calls(diff: WorldDiff, cfg: MigrationConfig) -> Seq<Call> {
    spec_namespace_calls(diff) + spec_kind_calls_upto(diff, cfg, diff.resources@.len() as int)
}

/// Class artifacts collected from the first `n` resource entries, skipped
/// resources excluded, de-duplicated by content hash: the first resource
/// needing a given artifact labels it.
pub open spec fn spec_artifacts_upto(diff: WorldDiff, cfg: MigrationConfig, n: int) -> Seq<
    ClassArtifact,
>
    decreases n,
{
    if n <= 0 {
        Seq::empty()
    } else {
        let r = diff.resources@[n - 1];
        let prev = spec_artifacts_upto(diff, cfg, n - 1);
        if cfg.spec_is_skipped(r.tag@) {
            prev
        } else {
            match spec_resource_artifact(r) {
                Some(a) => if spec_contains_casm(prev, a.casm_class_hash) {
                    prev
                } else {
                    prev + seq![a]
                },
                None => prev,
            }
        }
    }
}

/// The de-duplicated artifact set of the resource synchronization step.
pub open spec fn spec_resource_artifacts(diff: WorldDiff, cfg: MigrationConfig) -> Seq<
    ClassArtifact,
> {
    spec_artifacts_upto(diff, cfg, diff.resources@.len() as int)
}

/// Finds the resource entry carrying `selector`.
pub fn find_resource<'a>(diff: &'a WorldDiff, selector: u64) -> (r: Option<&'a ResourceEntry>)
    requires
        diff.wf(),
    ensures
        (r is Some) == exists|k: int|
            0 <= k < diff.resources@.len() && (#[trigger] diff.resources@[k]).selector == selector,
        r matches Some(e) ==> 0 <= spec_resource_index(*diff, selector) < diff.resources@.len()
            && *e == diff.resources@[spec_resource_index(*diff, selector)]
            && e.selector == selector,
{
    let mut i: usize = 0;
    while i < diff.resources.len()
        invariant
            diff.wf(),
            0 <= i <= diff.resources@.len(),
            forall|k: int|
                0 <= k < i ==> (#[trigger] diff.resources@[k]).selector != selector,
        decreases diff.resources@.len() - i,
    {
        if diff.resources[i].selector == selector {
            proof {
                let w = i as int;
                let c = spec_resource_index(*diff, selector);
                assert(0 <= c < diff.resources@.len() && diff.resources@[c].selector == selector);
                if c < w {
                    assert(diff.resources@[c].selector != selector);
                }
                if w < c {
                    assert(diff.resources@[w].selector != diff.resources@[c].selector);
                }
            }
            return Some(&diff.resources[i]);
        }
        i += 1;
    }
    None
}

/// Checks whether an artifact with content hash `h` is already collected.
pub(crate) fn contains_casm_artifact(artifacts: &Vec<ClassArtifact>, h: u64) -> (r: bool)
    ensures
        r == spec_contains_casm(artifacts@, h),
{
    let mut i: usize = 0;
    while i < artifacts.len()
        invariant
            0 <= i <= artifacts@.len(),
            forall|k: int| 0 <= k < i ==> (#[trigger] artifacts@[k]).casm_class_hash != h,
        decreases artifacts@.len() - i,
    {
        if artifacts[i].casm_class_hash == h {
            return true;
        }
        i += 1;
    }
    false
}

/// Emits the namespace registration calls, in the order the diff lists the
/// namespaces.
fn namespace_calls(diff: &WorldDiff, calls: &mut Vec<Call>)
    requires
        diff.wf(),
    ensures
        final(calls)@ == old(calls)@ + spec_namespace_calls(*diff),
{
    let mut j: usize = 0;
    while j < diff.namespaces.len()
        invariant
            diff.wf(),
            0 <= j <= diff.namespaces@.len(),
            calls@ == old(calls)@ + spec_namespace_calls_upto(*diff, j as int),
        decreases diff.namespaces@.len() - j,
    {
        let selector = diff.namespaces[j];
        match find_resource(diff, selector) {
            Some(r) => {
                if matches!(r.status, DiffStatus::Created) {
                    calls.push(Call::RegisterNamespace { name: r.name.clone() });
                }
            },
            None => {
                proof {
                    assert(exists|k: int|
                        0 <= k < diff.resources@.len() && (#[trigger] diff.resources@[k]).selector
                            == diff.namespaces@[j as int] && diff.resources@[k].kind is Namespace);
                    assert(false);
                }
            },
        }
        j += 1;
    }
}

/// Plans the resource synchronization step.
///
/// Returns the ordered calls (namespace registrations first) and the
/// de-duplicated artifacts they reference, or the fatal error when the diff
/// reports an updated library that is not skip-listed.
pub fn plan_resources(diff: &WorldDiff, cfg: &MigrationConfig) -> (r: Result<
    (Vec<Call>, Vec<ClassArtifact>),
    MigrationError,
>)
    requires
        diff.wf(),
    ensures
        (r is Ok) == !spec_library_violation(*diff, *cfg),
        r matches Ok(p) ==> p.0@ == spec_resource_sync_calls(*diff, *cfg) && p.1@
            == spec_resource_artifacts(*diff, *cfg),
        r matches Err(e) ==> e is LibraryUpdate,
{
    let mut calls: Vec<Call> = Vec::new();
    let mut artifacts: Vec<ClassArtifact> = Vec::new();

    namespace_calls(diff, &mut calls);

    let ghost ns_calls = spec_namespace_calls(*diff);
    let mut i: usize = 0;
    while i < diff.resources.len()
        invariant
            diff.wf(),
            0 <= i <= diff.resources@.len(),
            calls@ == ns_calls + spec_kind_calls_upto(*diff, *cfg, i as int),
            artifacts@ == spec_artifacts_upto(*diff, *cfg, i as int),
            ns_calls == spec_namespace_calls(*diff),
            forall|k: int|
                0 <= k < i ==> !(!cfg.spec_is_skipped((#[trigger] diff.resources@[k]).tag@)
                    && diff.resources@[k].kind is Library && diff.resources@[k].status is Updated),
        decreases diff.resources@.len() - i,
    {
        let r = &diff.resources[i];
        if !cfg.is_skipped(&r.tag) {
            if matches!(r.kind, ResourceKind::Library) && matches!(r.status, DiffStatus::Updated) {
                return Err(MigrationError::LibraryUpdate);
            }
            let needs_artifact = !matches!(r.kind, ResourceKind::Namespace) && (matches!(
                r.status,
                DiffStatus::Created,
            ) || (matches!(r.status, DiffStatus::Updated) && !matches!(
                r.kind,
                ResourceKind::Library,
            )));
            if needs_artifact {
                if !contains_casm_artifact(&artifacts, r.casm_class_hash) {
                    artifacts.push(
                        ClassArtifact {
                            label: r.tag.clone(),
                            casm_class_hash: r.casm_class_hash,
                            class_hash: r.class_hash,
                        },
                    );
                }
            }
            match r.status {
                DiffStatus::Created => match r.kind {
                    ResourceKind::Namespace => {},
                    ResourceKind::Contract => calls.push(
                        Call::RegisterContract {
                            selector: r.selector,
                            namespace: r.namespace.clone(),
                            class_hash: r.class_hash,
                        },
                    ),
                    ResourceKind::Library => calls.push(
                        Call::RegisterLibrary {
                            namespace: r.namespace.clone(),
                            class_hash: r.class_hash,
                            name: r.name.clone(),
                            version: r.version.clone(),
                        },
                    ),
                    ResourceKind::Model => calls.push(
                        Call::RegisterModel {
                            namespace: r.namespace.clone(),
                            class_hash: r.class_hash,
                        },
                    ),
                    ResourceKind::Event => calls.push(
                        Call::RegisterEvent {
                            namespace: r.namespace.clone(),
                            class_hash: r.class_hash,
                        },
                    ),
                },
                DiffStatus::Updated => match r.kind {
                    ResourceKind::Namespace => {},
                    ResourceKind::Contract => calls.push(
                        Call::UpgradeContract {
                            namespace: r.namespace.clone(),
                            class_hash: r.class_hash,
                        },
                    ),
                    ResourceKind::Library => {},
                    ResourceKind::Model => calls.push(
                        Call::UpgradeModel {
                            namespace: r.namespace.clone(),
                            class_hash: r.class_hash,
                        },
                    ),
                    ResourceKind::Event => calls.push(
                        Call::UpgradeEvent {
                            namespace: r.namespace.clone(),
                            class_hash: r.class_hash,
                        },
                    ),
                },
                DiffStatus::Synced => {},
            }
            proof {
                assert(calls@ =~= ns_calls + spec_kind_calls_upto(*diff, *cfg, i as int + 1));
                assert(artifacts@ =~= spec_artifacts_upto(*diff, *cfg, i as int + 1));
            }
        }
        i += 1;
    }
    Ok((calls, artifacts))
}

} // verus!
