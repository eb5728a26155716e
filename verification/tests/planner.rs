use sozo_migrate::calls::{Call, WorldStep};
use sozo_migrate::config::{InitArgs, MigrationConfig};
use sozo_migrate::diff::{
    DiffStatus, PermissionDelta, PermissionState, ResourceEntry, ResourceKind, WorldDiff,
    WorldInfo, WorldStatus,
};
use sozo_migrate::error::MigrationError;
use sozo_migrate::Migration;
use starknet_crypto::Felt;

fn entry(
    selector: u64,
    kind: ResourceKind,
    status: DiffStatus,
    tag: &str,
    namespace: &str,
    name: &str,
    class_hash: u64,
    casm_class_hash: u64,
) -> ResourceEntry {
    ResourceEntry {
        selector,
        kind,
        status,
        tag: tag.to_string(),
        namespace: namespace.to_string(),
        name: name.to_string(),
        class_hash,
        casm_class_hash,
        version: String::new(),
        remote_initialized: false,
        writers: Vec::new(),
        owners: Vec::new(),
    }
}

fn config() -> MigrationConfig {
    MigrationConfig {
        skip_tags: Vec::new(),
        init_args: Vec::new(),
        order_inits: Vec::new(),
        disable_multicall: false,
        seed: "dojo".to_string(),
        guest: false,
    }
}

fn empty_diff(status: WorldStatus) -> WorldDiff {
    WorldDiff {
        world: WorldInfo { status, class_hash: 7, casm_class_hash: 8 },
        namespaces: Vec::new(),
        resources: Vec::new(),
        external_contracts: Vec::new(),
        external_classes: Vec::new(),
    }
}

/// A synced world with nothing to do yields no operations at all.
#[test]
fn empty_diff_no_changes() {
    let m = Migration::new(empty_diff(WorldStatus::Synced), config());
    let res = m.migrate().unwrap();
    assert!(!res.has_changes);
    assert!(matches!(res.plan.world, WorldStep::Unchanged));
    assert_eq!(res.plan.artifacts.len(), 0);
    assert_eq!(res.plan.resource_calls.len(), 0);
    assert_eq!(res.plan.permission_calls.len(), 0);
    assert_eq!(res.plan.init_calls.len(), 0);
    assert_eq!(res.plan.external_artifacts.len(), 0);
    assert_eq!(res.plan.external_deploys.len(), 0);
}

/// An undeployed world is deployed with the salt derived from the seed.
#[test]
fn world_deploy_with_seed_salt() {
    let m = Migration::new(empty_diff(WorldStatus::NotDeployed), config());
    let res = m.migrate().unwrap();
    assert!(res.has_changes);
    match &res.plan.world {
        WorldStep::Deploy { artifact, class_hash, salt } => {
            assert_eq!(artifact.label, "world");
            assert_eq!(artifact.casm_class_hash, 8);
            assert_eq!(artifact.class_hash, 7);
            assert_eq!(*class_hash, 7);
            let expected = starknet::core::utils::starknet_keccak("dojo".as_bytes());
            assert_eq!(*salt, expected);
        },
        _ => panic!("expected a deployment step"),
    }
}

/// A new world version is upgraded in place.
#[test]
fn world_upgrade_step() {
    let m = Migration::new(empty_diff(WorldStatus::NewVersion), config());
    let res = m.migrate().unwrap();
    assert!(res.has_changes);
    assert!(matches!(&res.plan.world, WorldStep::Upgrade { class_hash: 7, .. }));
}

/// One created contract with configured arguments: publish one artifact,
/// register the contract, initialize it, in that order across the steps.
#[test]
fn created_contract_three_operations() {
    let mut diff = empty_diff(WorldStatus::Synced);
    diff.namespaces.push(10);
    diff.resources.push(entry(10, ResourceKind::Namespace, DiffStatus::Synced, "ns", "ns", "ns", 0, 0));
    diff.resources.push(entry(1, ResourceKind::Contract, DiffStatus::Created, "ns-c1", "ns", "c1", 100, 200));
    let mut cfg = config();
    cfg.init_args.push(InitArgs { tag: "ns-c1".to_string(), items: vec!["0x2a".to_string()] });
    let m = Migration::new(diff, cfg);
    let res = m.migrate().unwrap();
    assert!(res.has_changes);
    assert_eq!(res.plan.artifacts.len(), 1);
    assert_eq!(res.plan.artifacts[0].label, "ns-c1");
    assert_eq!(res.plan.artifacts[0].casm_class_hash, 200);
    assert_eq!(res.plan.resource_calls.len(), 1);
    assert!(matches!(
        &res.plan.resource_calls[0],
        Call::RegisterContract { selector: 1, class_hash: 100, .. }
    ));
    assert_eq!(res.plan.init_calls.len(), 1);
    match &res.plan.init_calls[0] {
        Call::InitContract { selector, args } => {
            assert_eq!(*selector, 1);
            assert_eq!(args.as_slice(), &[Felt::from_hex("0x2a").unwrap()]);
            assert_eq!(args.as_slice(), &[Felt::from(42u64)]);
        },
        _ => panic!("expected an initialization call"),
    }
    assert_eq!(res.plan.permission_calls.len(), 0);
}

/// A created namespace is registered before any resource of it.
#[test]
fn namespace_registered_before_contract() {
    let mut diff = empty_diff(WorldStatus::Synced);
    diff.namespaces.push(10);
    diff.resources.push(entry(1, ResourceKind::Contract, DiffStatus::Created, "ns-c1", "ns", "c1", 100, 200));
    diff.resources.push(entry(10, ResourceKind::Namespace, DiffStatus::Created, "ns", "ns", "ns", 0, 0));
    let m = Migration::new(diff, config());
    let res = m.migrate().unwrap();
    assert_eq!(res.plan.resource_calls.len(), 2);
    match &res.plan.resource_calls[0] {
        Call::RegisterNamespace { name } => assert_eq!(name, "ns"),
        _ => panic!("the namespace registration must come first"),
    }
    assert!(matches!(&res.plan.resource_calls[1], Call::RegisterContract { selector: 1, .. }));
}

/// Every artifact referenced by a register or upgrade call is published,
/// and identical content hashes are published once.
#[test]
fn artifacts_deduplicated_by_content_hash() {
    let mut diff = empty_diff(WorldStatus::Synced);
    diff.resources.push(entry(1, ResourceKind::Model, DiffStatus::Created, "ns-m1", "ns", "m1", 100, 200));
    diff.resources.push(entry(2, ResourceKind::Model, DiffStatus::Created, "ns-m2", "ns", "m2", 100, 200));
    diff.resources.push(entry(3, ResourceKind::Event, DiffStatus::Updated, "ns-e1", "ns", "e1", 101, 201));
    let m = Migration::new(diff, config());
    let res = m.migrate().unwrap();
    assert_eq!(res.plan.resource_calls.len(), 3);
    assert_eq!(res.plan.artifacts.len(), 2);
    assert_eq!(res.plan.artifacts[0].casm_class_hash, 200);
    assert_eq!(res.plan.artifacts[0].label, "ns-m1");
    assert_eq!(res.plan.artifacts[1].casm_class_hash, 201);
}

/// A skip-listed resource contributes no artifact, call, grant or
/// initialization anywhere in the plan.
#[test]
fn skipped_resource_fully_excluded() {
    let mut diff = empty_diff(WorldStatus::Synced);
    let mut c = entry(1, ResourceKind::Contract, DiffStatus::Created, "ns-c1", "ns", "c1", 100, 200);
    c.writers.push(PermissionDelta {
        grantee: 77,
        grantee_tag: None,
        state: PermissionState::LocalOnly,
    });
    diff.resources.push(c);
    let mut cfg = config();
    cfg.skip_tags.push("ns-c1".to_string());
    let m = Migration::new(diff, cfg);
    let res = m.migrate().unwrap();
    assert!(!res.has_changes);
    assert_eq!(res.plan.artifacts.len(), 0);
    assert_eq!(res.plan.resource_calls.len(), 0);
    assert_eq!(res.plan.permission_calls.len(), 0);
    assert_eq!(res.plan.init_calls.len(), 0);
}

/// Created contracts are always initialized; synced contracts only when
/// the remote observation reports them uninitialized.
#[test]
fn init_eligibility() {
    let mut diff = empty_diff(WorldStatus::Synced);
    let mut done = entry(1, ResourceKind::Contract, DiffStatus::Synced, "ns-a", "ns", "a", 1, 1);
    done.remote_initialized = true;
    let pending = entry(2, ResourceKind::Contract, DiffStatus::Synced, "ns-b", "ns", "b", 2, 2);
    let created = entry(3, ResourceKind::Contract, DiffStatus::Created, "ns-c", "ns", "c", 3, 3);
    diff.resources.push(done);
    diff.resources.push(pending);
    diff.resources.push(created);
    let m = Migration::new(diff, config());
    let res = m.migrate().unwrap();
    let inits: Vec<u64> = res
        .plan
        .init_calls
        .iter()
        .map(|c| match c {
            Call::InitContract { selector, .. } => *selector,
            _ => panic!("not an initialization call"),
        })
        .collect();
    assert_eq!(inits, vec![2, 3]);
}

/// The configured order list drives the initialization order, and ordered
/// calls come after the unordered ones, whatever order the diff uses.
#[test]
fn init_order_list_respected() {
    let mut diff = empty_diff(WorldStatus::Synced);
    diff.resources.push(entry(1, ResourceKind::Contract, DiffStatus::Created, "ns-a", "ns", "a", 1, 1));
    diff.resources.push(entry(2, ResourceKind::Contract, DiffStatus::Created, "ns-b", "ns", "b", 2, 2));
    diff.resources.push(entry(3, ResourceKind::Contract, DiffStatus::Created, "ns-c", "ns", "c", 3, 3));
    let mut cfg = config();
    cfg.order_inits.push("ns-b".to_string());
    cfg.order_inits.push("ns-a".to_string());
    let m = Migration::new(diff, cfg);
    let res = m.migrate().unwrap();
    let inits: Vec<u64> = res
        .plan
        .init_calls
        .iter()
        .map(|c| match c {
            Call::InitContract { selector, .. } => *selector,
            _ => panic!("not an initialization call"),
        })
        .collect();
    assert_eq!(inits, vec![3, 2, 1]);
}

/// Local-only permission entries yield one grant each, writers before
/// owners; entries already synced or only remote yield none.
#[test]
fn permission_grants() {
    let mut diff = empty_diff(WorldStatus::Synced);
    let mut c = entry(1, ResourceKind::Contract, DiffStatus::Synced, "ns-c1", "ns", "c1", 1, 1);
    c.remote_initialized = true;
    c.writers.push(PermissionDelta {
        grantee: 50,
        grantee_tag: Some("ns-w".to_string()),
        state: PermissionState::LocalOnly,
    });
    c.writers.push(PermissionDelta { grantee: 51, grantee_tag: None, state: PermissionState::Synced });
    c.owners.push(PermissionDelta {
        grantee: 60,
        grantee_tag: None,
        state: PermissionState::LocalOnly,
    });
    c.owners.push(PermissionDelta {
        grantee: 61,
        grantee_tag: None,
        state: PermissionState::RemoteOnly,
    });
    diff.resources.push(c);
    let m = Migration::new(diff, config());
    let res = m.migrate().unwrap();
    assert!(res.has_changes);
    assert_eq!(res.plan.permission_calls.len(), 2);
    assert!(matches!(&res.plan.permission_calls[0], Call::GrantWriter { resource: 1, grantee: 50 }));
    assert!(matches!(&res.plan.permission_calls[1], Call::GrantOwner { resource: 1, grantee: 60 }));
}

/// A malformed configured argument item aborts the run before any call.
#[test]
fn malformed_init_args_fatal() {
    let mut diff = empty_diff(WorldStatus::Synced);
    diff.resources.push(entry(1, ResourceKind::Contract, DiffStatus::Created, "ns-c1", "ns", "c1", 1, 1));
    let mut cfg = config();
    cfg.init_args.push(InitArgs { tag: "ns-c1".to_string(), items: vec!["xyz".to_string()] });
    let m = Migration::new(diff, cfg);
    assert!(matches!(m.migrate(), Err(MigrationError::InitCallArgs)));
}

/// An updated library is a diff-producer contract violation.
#[test]
fn updated_library_fatal() {
    let mut diff = empty_diff(WorldStatus::Synced);
    diff.resources.push(entry(1, ResourceKind::Library, DiffStatus::Updated, "ns-l1", "ns", "l1", 1, 1));
    let m = Migration::new(diff, config());
    assert!(matches!(m.migrate(), Err(MigrationError::LibraryUpdate)));
}

/// A created library is registered with its name and version.
#[test]
fn created_library_registered() {
    let mut diff = empty_diff(WorldStatus::Synced);
    let mut l = entry(1, ResourceKind::Library, DiffStatus::Created, "ns-l1", "ns", "l1", 9, 9);
    l.version = "0_1_0".to_string();
    diff.resources.push(l);
    let m = Migration::new(diff, config());
    let res = m.migrate().unwrap();
    assert_eq!(res.plan.resource_calls.len(), 1);
    match &res.plan.resource_calls[0] {
        Call::RegisterLibrary { namespace, class_hash, name, version } => {
            assert_eq!(namespace, "ns");
            assert_eq!(*class_hash, 9);
            assert_eq!(name, "l1");
            assert_eq!(version, "0_1_0");
        },
        _ => panic!("expected a library registration"),
    }
}

/// External classes are published and created external contracts deployed
/// with their configured salt and constructor data.
#[test]
fn external_contracts_deployed() {
    let mut diff = empty_diff(WorldStatus::Synced);
    diff.external_classes.push(sozo_migrate::diff::ExternalClassEntry {
        name: "Token".to_string(),
        status: DiffStatus::Created,
        class_hash: 400,
        casm_class_hash: 500,
    });
    diff.external_contracts.push(sozo_migrate::diff::ExternalContractEntry {
        name: "Token".to_string(),
        status: DiffStatus::Created,
        class_hash: 400,
        salt: 12,
        constructor_calldata: vec![1, 2, 3],
    });
    diff.external_contracts.push(sozo_migrate::diff::ExternalContractEntry {
        name: "Old".to_string(),
        status: DiffStatus::Synced,
        class_hash: 401,
        salt: 13,
        constructor_calldata: Vec::new(),
    });
    let m = Migration::new(diff, config());
    let res = m.migrate().unwrap();
    assert!(res.has_changes);
    assert_eq!(res.plan.external_artifacts.len(), 1);
    assert_eq!(res.plan.external_artifacts[0].label, "Token");
    assert_eq!(res.plan.external_deploys.len(), 1);
    assert_eq!(res.plan.external_deploys[0].class_hash, 400);
    assert_eq!(res.plan.external_deploys[0].salt, 12);
    assert_eq!(res.plan.external_deploys[0].constructor_calldata, vec![1, 2, 3]);
}

/// Re-running after convergence reports nothing to do: the first run over
/// a diverged diff has changes, a second run over the re-diffed (now
/// synced) state has none.
#[test]
fn second_run_idempotent() {
    let mut first = empty_diff(WorldStatus::NotDeployed);
    first.resources.push(entry(1, ResourceKind::Contract, DiffStatus::Created, "ns-c1", "ns", "c1", 1, 1));
    let res1 = Migration::new(first, config()).migrate().unwrap();
    assert!(res1.has_changes);

    let mut second = empty_diff(WorldStatus::Synced);
    let mut done = entry(1, ResourceKind::Contract, DiffStatus::Synced, "ns-c1", "ns", "c1", 1, 1);
    done.remote_initialized = true;
    second.resources.push(done);
    let res2 = Migration::new(second, config()).migrate().unwrap();
    assert!(!res2.has_changes);
}

/// The manifest renders the diff row by row.
#[test]
fn manifest_mirrors_diff() {
    let mut diff = empty_diff(WorldStatus::Synced);
    diff.resources.push(entry(1, ResourceKind::Model, DiffStatus::Created, "ns-m1", "ns", "m1", 100, 200));
    let m = Migration::new(diff, config());
    let res = m.migrate().unwrap();
    assert_eq!(res.manifest.world_class_hash, 7);
    assert_eq!(res.manifest.entries.len(), 1);
    assert_eq!(res.manifest.entries[0].selector, 1);
    assert_eq!(res.manifest.entries[0].tag, "ns-m1");
    assert_eq!(res.manifest.entries[0].class_hash, 100);
    assert!(matches!(res.manifest.entries[0].kind, ResourceKind::Model));
    assert!(matches!(res.manifest.entries[0].status, DiffStatus::Created));
}

/// In guest mode the registry is left untouched even when it diverges.
#[test]
fn guest_mode_leaves_world_alone() {
    let mut cfg = config();
    cfg.guest = true;
    let m = Migration::new(empty_diff(WorldStatus::NotDeployed), cfg);
    let res = m.migrate().unwrap();
    assert!(matches!(res.plan.world, WorldStep::Unchanged));
    assert!(!res.has_changes);
}
