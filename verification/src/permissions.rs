//! The permission synchronization step: grants present locally but absent
//! remotely are applied; drift in the other direction is deliberately left
//! alone (grants are never revoked here).

use vstd::prelude::*;
use crate::calls::Call;
use crate::config::MigrationConfig;
use crate::diff::{PermissionState, ResourceEntry, WorldDiff};

verus! {

/// Writer grant calls of the first `n` writer entries of one resource: one
/// call per entry classified local-only.
pub open spec fn spec_writer_calls_upto(r: ResourceEntry, n: int) -> Seq<Call>
    decreases n,
{
    if n <= 0 {
        Seq::empty()
    } else {
        spec_writer_calls_upto(r, n - 1) + if r.writers@[n - 1].state is LocalOnly {
            seq![Call::GrantWriter { resource: r.selector, grantee: r.writers@[n - 1].grantee }]
        } else {
            Seq::empty()
        }
    }
}

/// Owner grant calls of the first `n` owner entries of one resource.
pub open spec fn spec_owner_calls_upto(r: ResourceEntry, n: int) -> Seq<Call>
    decreases n,
{
    if n <= 0 {
        Seq::empty()
    } else {
        spec_owner_calls_upto(r, n - 1) + if r.owners@[n - 1].state is LocalOnly {
            seq![Call::GrantOwner { resource: r.selector, grantee: r.owners@[n - 1].grantee }]
        } else {
            Seq::empty()
        }
    }
}

/// All grant calls of one resource: writer grants first, then owner grants.
pub open spec fn spec_grant_calls(r: ResourceEntry) -> Seq<Call> {
    spec_writer_calls_upto(r, r.writers@.len() as int) + spec_owner_calls_upto(
        r,
        r.owners@.len() as int,
    )
}

/// Grant calls of the first `n` resource entries, skipped resources
/// excluded.
pub open spec fn spec_permission_calls_upto(diff: WorldDiff, cfg: MigrationConfig, n: int) -> Seq<
    Call,
>
    decreases n,
{
    if n <= 0 {
        Seq::empty()
    } else {
        let r = diff.resources@[n - 1];
        spec_permission_calls_upto(diff, cfg, n - 1) + if cfg.spec_is_skipped(r.tag@) {
            Seq::empty()
        } else {
            spec_grant_calls(r)
        }
    }
}

/// The full call sequence of the permission synchronization step.
pub open spec fn spec_permission_calls(diff: WorldDiff, cfg: MigrationConfig) -> Seq<Call> {
    spec_permission_calls_upto(diff, cfg, diff.resources@.len() as int)
}

/// Plans the permission synchronization step: for every non-skipped
/// resource, one grant call per local-only permission entry, writer grants
/// before owner grants.
pub fn plan_permissions(diff: &WorldDiff, cfg: &MigrationConfig) -> (calls: Vec<Call>)
    ensures
        calls@ == spec_permission_calls(*diff, *cfg),
{
    let mut calls: Vec<Call> = Vec::new();
    let mut i: usize = 0;
    while i < diff.resources.len()
        invariant
            0 <= i <= diff.resources@.len(),
            calls@ == spec_permission_calls_upto(*diff, *cfg, i as int),
        decreases diff.resources@.len() - i,
    {
        let r = &diff.resources[i];
        if !cfg.is_skipped(&r.tag) {
            let ghost calls0 = calls@;
            let mut w: usize = 0;
            while w < r.writers.len()
                invariant
                    0 <= w <= r.writers@.len(),
                    *r == diff.resources@[i as int],
                    calls@ == calls0 + spec_writer_calls_upto(*r, w as int),
                decreases r.writers@.len() - w,
            {
                if matches!(r.writers[w].state, PermissionState::LocalOnly) {
                    calls.push(
                        Call::GrantWriter { resource: r.selector, grantee: r.writers[w].grantee },
                    );
                }
                w += 1;
            }
            let ghost calls1 = calls@;
            let mut o: usize = 0;
            while o < r.owners.len()
                invariant
                    0 <= o <= r.owners@.len(),
                    *r == diff.resources@[i as int],
                    calls@ == calls1 + spec_owner_calls_upto(*r, o as int),
                    calls1 == calls0 + spec_writer_calls_upto(*r, r.writers@.len() as int),
                decreases r.owners@.len() - o,
            {
                if matches!(r.owners[o].state, PermissionState::LocalOnly) {
                    calls.push(
                        Call::GrantOwner { resource: r.selector, grantee: r.owners[o].grantee },
                    );
                }
                o += 1;
            }
            proof {
                assert(calls@ =~= calls0 + spec_grant_calls(diff.resources@[i as int]));
                assert(calls@ =~= spec_permission_calls_upto(*diff, *cfg, i as int + 1));
            }
        }
        i += 1;
    }
    calls
}

} // verus!
