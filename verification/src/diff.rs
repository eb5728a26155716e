//! Model of the computed difference between the locally declared world and
//! the remotely observed one.
//!
//! The diff is produced by an external collaborator and is read-only during a
//! migration run.  Every value in it is plain data: resource identifiers,
//! class hashes and grantee identities are stable numeric identifiers, tags
//! and namespaces are strings.

use vstd::prelude::*;

verus! {

/// Whether the root registry contract itself must be first-deployed, left
/// alone, or upgraded.
#[derive(Clone, Copy, PartialEq, Eq, Structural, Debug)]
pub enum WorldStatus {
    NotDeployed,
    Synced,
    NewVersion,
}

/// The kind of a registered resource.
#[derive(Clone, Copy, PartialEq, Eq, Structural, Debug)]
pub enum ResourceKind {
    Namespace,
    Contract,
    Library,
    Model,
    Event,
}

/// How a single resource diverges between the local declaration and the
/// remote observation.
#[derive(Clone, Copy, PartialEq, Eq, Structural, Debug)]
pub enum DiffStatus {
    /// Declared locally, absent remotely.
    Created,
    /// Present on both sides with diverging code.
    Updated,
    /// Present on both sides and identical.
    Synced,
}

/// Classification of one permission entry relative to the remote state.
#[derive(Clone, Copy, PartialEq, Eq, Structural, Debug)]
pub enum PermissionState {
    /// Present locally, absent remotely: must be granted.
    LocalOnly,
    /// Present remotely only: left alone (grants are never revoked).
    RemoteOnly,
    /// Present on both sides.
    Synced,
}

/// One permission entry of a resource: a grantee identity, an optional
/// human-readable tag for that grantee, and its classification.
#[derive(Debug)]
pub struct PermissionDelta {
    pub grantee: u64,
    pub grantee_tag: Option<String>,
    pub state: PermissionState,
}

/// The diff entry of one resource.
///
/// `version` is meaningful for libraries only; `remote_initialized` is
/// meaningful for contracts whose status is `Updated` or `Synced`.
#[derive(Debug)]
pub struct ResourceEntry {
    /// Stable identifier of the resource.
    pub selector: u64,
    pub kind: ResourceKind,
    pub status: DiffStatus,
    /// Human-readable tag, unique across the diff.
    pub tag: String,
    /// Name of the namespace the resource belongs to (for namespaces, their
    /// own name).
    pub namespace: String,
    /// Name of the resource inside its namespace.
    pub name: String,
    /// Declared class hash of the resource's code.
    pub class_hash: u64,
    /// Content hash of the compiled artifact, used to de-duplicate
    /// publication work.
    pub casm_class_hash: u64,
    /// Declared version (libraries only).
    pub version: String,
    /// Whether the remote observation reports the contract as initialized.
    pub remote_initialized: bool,
    /// Writer permission entries of this resource.
    pub writers: Vec<PermissionDelta>,
    /// Owner permission entries of this resource.
    pub owners: Vec<PermissionDelta>,
}

/// The diff entry of an externally-owned contract tracked by the migration.
#[derive(Debug)]
pub struct ExternalContractEntry {
    pub name: String,
    pub status: DiffStatus,
    pub class_hash: u64,
    /// Deployment salt from the local configuration.
    pub salt: u64,
    /// Raw constructor data from the local configuration, not interpreted
    /// here.
    pub constructor_calldata: Vec<u64>,
}

/// The diff entry of an externally-owned contract class.
#[derive(Debug)]
pub struct ExternalClassEntry {
    pub name: String,
    pub status: DiffStatus,
    pub class_hash: u64,
    pub casm_class_hash: u64,
}

/// State of the root registry contract.
#[derive(Debug)]
pub struct WorldInfo {
    pub status: WorldStatus,
    pub class_hash: u64,
    pub casm_class_hash: u64,
}

/// Immutable snapshot comparing the local declaration to the remote
/// observation.
#[derive(Debug)]
pub struct WorldDiff {
    pub world: WorldInfo,
    /// Selectors of the namespace resources.
    pub namespaces: Vec<u64>,
    /// One entry per resource, in a deterministic order fixed by the diff
    /// producer.
    pub resources: Vec<ResourceEntry>,
    pub external_contracts: Vec<ExternalContractEntry>,
    pub external_classes: Vec<ExternalClassEntry>,
}

impl ResourceEntry {
    /// Grantee identities are unique within each permission list, so that a
    /// permission delta corresponds to at most one grant call.
    pub open spec fn wf(&self) -> bool {
        &&& forall|i: int, j: int|
            #![trigger self.writers@[i], self.writers@[j]]
            0 <= i < j < self.writers@.len() ==> self.writers@[i].grantee != self.writers@[j].grantee
        &&& forall|i: int, j: int|
            #![trigger self.owners@[i], self.owners@[j]]
            0 <= i < j < self.owners@.len() ==> self.owners@[i].grantee != self.owners@[j].grantee
    }
}

impl WorldDiff {
    /// Well-formedness of the snapshot: selectors and tags identify at most
    /// one resource, the listed namespace selectors are exactly those of the
    /// namespace resources, namespaces are never in `Updated` state (they
    /// carry no code), a content hash always pairs with the same class
    /// hash, and each resource's permission lists are well-formed.
    pub open spec fn wf(&self) -> bool {
        &&& forall|i: int, j: int|
            #![trigger self.resources@[i], self.resources@[j]]
            0 <= i < j < self.resources@.len() ==> self.resources@[i].selector
                != self.resources@[j].selector && self.resources@[i].tag@ != self.resources@[j].tag@
        &&& forall|i: int|
            #![trigger self.namespaces@[i]]
            0 <= i < self.namespaces@.len() ==> exists|k: int|
                0 <= k < self.resources@.len() && (#[trigger] self.resources@[k]).selector
                    == self.namespaces@[i] && self.resources@[k].kind is Namespace
        &&& forall|k: int|
            0 <= k < self.resources@.len() && (#[trigger] self.resources@[k]).kind is Namespace
                ==> !(self.resources@[k].status is Updated) && exists|i: int|
                0 <= i < self.namespaces@.len() && #[trigger] self.namespaces@[i]
                    == self.resources@[k].selector
        &&& forall|i: int, j: int|
            #![trigger self.resources@[i].casm_class_hash, self.resources@[j].casm_class_hash]
            0 <= i < self.resources@.len() && 0 <= j < self.resources@.len()
                && self.resources@[i].casm_class_hash == self.resources@[j].casm_class_hash
                ==> self.resources@[i].class_hash == self.resources@[j].class_hash
        &&& forall|i: int| 0 <= i < self.resources@.len() ==> (#[trigger] self.resources@[i]).wf()
    }

    /// Whether the registry and every resource are already in the declared
    /// state, so that the resource synchronization step has nothing to do.
    pub open spec fn spec_is_synced(&self) -> bool {
        &&& self.world.status is Synced
        &&& forall|i: int|
            0 <= i < self.resources@.len() ==> (#[trigger] self.resources@[i]).status is Synced
    }

    /// Executable check matching [`WorldDiff::spec_is_synced`].
    pub fn is_synced(&self) -> (r: bool)
        ensures
            r == self.spec_is_synced(),
    {
        if !matches!(self.world.status, WorldStatus::Synced) {
            return false;
        }
        let mut i: usize = 0;
        while i < self.resources.len()
            invariant
                0 <= i <= self.resources@.len(),
                self.world.status is Synced,
                forall|k: int| 0 <= k < i ==> (#[trigger] self.resources@[k]).status is Synced,
            decreases self.resources@.len() - i,
        {
            if !matches!(self.resources[i].status, DiffStatus::Synced) {
                return false;
            }
            i += 1;
        }
        true
    }
}

} // verus!
