//! The operations a migration plan emits: remote mutating calls, class
//! artifacts to publish, and the deterministic deployments of external
//! contracts.

use vstd::prelude::*;
use starknet_crypto::Felt;

verus! {

/// One remote mutating call of the registry.
#[derive(Debug)]
pub enum Call {
    /// Registers a namespace by name.
    RegisterNamespace { name: String },
    /// Registers a newly created contract.
    RegisterContract { selector: u64, namespace: String, class_hash: u64 },
    /// Upgrades an existing contract to a new class.
    UpgradeContract { namespace: String, class_hash: u64 },
    /// Registers a newly created library; libraries carry a version and are
    /// never upgraded.
    RegisterLibrary { namespace: String, class_hash: u64, name: String, version: String },
    /// Registers a newly created data-record type.
    RegisterModel { namespace: String, class_hash: u64 },
    /// Upgrades an existing data-record type.
    UpgradeModel { namespace: String, class_hash: u64 },
    /// Registers a newly created event.
    RegisterEvent { namespace: String, class_hash: u64 },
    /// Upgrades an existing event.
    UpgradeEvent { namespace: String, class_hash: u64 },
    /// Grants write permission on a resource to a grantee.
    GrantWriter { resource: u64, grantee: u64 },
    /// Grants ownership of a resource to a grantee.
    GrantOwner { resource: u64, grantee: u64 },
    /// Runs a contract's one-time initialization with decoded arguments.
    InitContract { selector: u64, args: Vec<Felt> },
}

/// A compiled class to publish, content-addressed by its artifact hash and
/// labeled with the tag of a resource that needs it.
#[derive(Debug)]
pub struct ClassArtifact {
    pub label: String,
    pub casm_class_hash: u64,
    pub class_hash: u64,
}

/// What must happen to the root registry contract before anything else.
#[derive(Debug)]
pub enum WorldStep {
    /// The registry is already current.
    Unchanged,
    /// Publish the registry's artifact, then deploy it at the deterministic
    /// address derived from `salt`.
    Deploy { artifact: ClassArtifact, class_hash: u64, salt: Felt },
    /// Publish the new artifact, then issue one upgrade call.
    Upgrade { artifact: ClassArtifact, class_hash: u64 },
}

/// One deterministic deployment of an externally-owned contract.
#[derive(Debug)]
pub struct DeployCall {
    pub class_hash: u64,
    pub salt: u64,
    pub constructor_calldata: Vec<u64>,
}

/// The full ordered outcome of planning one migration run.
///
/// The steps execute strictly in the order of the fields, and within each
/// step every artifact is published before any call of that step or a later
/// one is flushed.
#[derive(Debug)]
pub struct MigrationPlan {
    /// Step one: converge the root registry.
    pub world: WorldStep,
    /// Step two, first half: resource class artifacts, de-duplicated by
    /// artifact hash, all published before the resource calls run.
    pub artifacts: Vec<ClassArtifact>,
    /// Step two, second half: namespace registrations first, then one
    /// register or upgrade call per diverging resource.
    pub resource_calls: Vec<Call>,
    /// Step three: permission grants present locally but absent remotely.
    pub permission_calls: Vec<Call>,
    /// Step four: one-time contract initializations.
    pub init_calls: Vec<Call>,
    /// Step five, first half: external class artifacts to publish.
    pub external_artifacts: Vec<ClassArtifact>,
    /// Step five, second half: deterministic deployments of newly created
    /// external contracts.
    pub external_deploys: Vec<DeployCall>,
}

impl Call {
    /// The class hash a call references, if it references one.
    pub open spec fn spec_class_hash(&self) -> Option<u64> {
        match *self {
            Call::RegisterContract { class_hash, .. } => Some(class_hash),
            Call::UpgradeContract { class_hash, .. } => Some(class_hash),
            Call::RegisterLibrary { class_hash, .. } => Some(class_hash),
            Call::RegisterModel { class_hash, .. } => Some(class_hash),
            Call::UpgradeModel { class_hash, .. } => Some(class_hash),
            Call::RegisterEvent { class_hash, .. } => Some(class_hash),
            Call::UpgradeEvent { class_hash, .. } => Some(class_hash),
            _ => None,
        }
    }

    /// The namespace a register or upgrade call names, if any.
    pub open spec fn spec_namespace(&self) -> Option<Seq<char>> {
        match *self {
            Call::RegisterContract { ref namespace, .. } => Some(namespace@),
            Call::UpgradeContract { ref namespace, .. } => Some(namespace@),
            Call::RegisterLibrary { ref namespace, .. } => Some(namespace@),
            Call::RegisterModel { ref namespace, .. } => Some(namespace@),
            Call::UpgradeModel { ref namespace, .. } => Some(namespace@),
            Call::RegisterEvent { ref namespace, .. } => Some(namespace@),
            Call::UpgradeEvent { ref namespace, .. } => Some(namespace@),
            _ => None,
        }
    }
}

} // verus!
