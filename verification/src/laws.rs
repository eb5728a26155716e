//! The laws of the planner, stated and proved over the same specification
//! functions its contracts use.

use vstd::prelude::*;
use crate::calls::{Call, ClassArtifact};
use crate::config::MigrationConfig;
use crate::diff::{ResourceEntry, WorldDiff};
use crate::permissions::{
    spec_grant_calls, spec_owner_calls_upto, spec_permission_calls, spec_permission_calls_upto,
    spec_writer_calls_upto,
};
use crate::init::{
    spec_init_order, spec_init_selected, spec_order_slot_active, spec_ordered_init_upto,
    spec_resource_index_by_tag, spec_unordered_init_upto,
};
use crate::external::{spec_external_artifacts_upto, spec_external_deploy_indices_upto};
use crate::resources::{
    spec_artifacts_upto, spec_contains_casm, spec_kind_calls_upto, spec_namespace_calls,
    spec_namespace_calls_upto, spec_resource_artifact, spec_resource_artifacts,
    spec_resource_calls, spec_resource_index, spec_resource_sync_calls,
};

verus! {

/// Whether an artifact publishing class hash `h` is in the collection.
pub open spec fn spec_contains_class(arts: Seq<ClassArtifact>, h: u64) -> bool {
    exists|i: int| 0 <= i < arts.len() && (#[trigger] arts[i]).class_hash == h
}

/// Whether `c` is a call of some non-skipped resource among the first `n`
/// entries.
pub open spec fn spec_call_from_unskipped(
    diff: WorldDiff,
    cfg: MigrationConfig,
    n: int,
    c: Call,
) -> bool {
    exists|j: int|
        0 <= j < n && !cfg.spec_is_skipped((#[trigger] diff.resources@[j]).tag@)
            && spec_resource_calls(diff.resources@[j]).contains(c)
}

/// Whether `a` carries the tag of some non-skipped resource as its label.
pub open spec fn spec_label_of_unskipped(diff: WorldDiff, cfg: MigrationConfig, a: ClassArtifact) -> bool {
    exists|j: int|
        0 <= j < diff.resources@.len() && !cfg.spec_is_skipped(
            (#[trigger] diff.resources@[j]).tag@,
        ) && a.label@ == diff.resources@[j].tag@
}

/// Whether `a` is the artifact of some non-skipped resource among the
/// first `n` entries.
pub open spec fn spec_artifact_from_unskipped(
    diff: WorldDiff,
    cfg: MigrationConfig,
    n: int,
    a: ClassArtifact,
) -> bool {
    exists|j: int|
        0 <= j < n && !cfg.spec_is_skipped((#[trigger] diff.resources@[j]).tag@)
            && spec_resource_artifact(diff.resources@[j]) == Some(a)
}

/// Every call of the namespace registration pass is a namespace
/// registration.
proof fn lemma_ns_calls_all_ns(diff: WorldDiff, n: int)
    requires
        0 <= n <= diff.namespaces@.len(),
    ensures
        forall|k: int|
            0 <= k < spec_namespace_calls_upto(diff, n).len() ==> (#[trigger] spec_namespace_calls_upto(
                diff,
                n,
            )[k]) is RegisterNamespace,
    decreases n,
{
    if n > 0 {
        lemma_ns_calls_all_ns(diff, n - 1);
    }
}

/// The calls one resource entry contributes are register or upgrade calls
/// of that entry: never a namespace registration, always carrying the
/// entry's class hash.
proof fn lemma_resource_calls_shape(r: ResourceEntry)
    ensures
        forall|k: int|
            0 <= k < spec_resource_calls(r).len() ==> !((#[trigger] spec_resource_calls(
                r,
            )[k]) is RegisterNamespace) && spec_resource_calls(r)[k].spec_class_hash() == Some(
                r.class_hash,
            ),
{
}

/// Every call of the per-kind pass comes from some non-skipped resource
/// entry.
proof fn lemma_kind_calls_provenance(diff: WorldDiff, cfg: MigrationConfig, n: int)
    requires
        0 <= n <= diff.resources@.len(),
    ensures
        forall|k: int|
            0 <= k < spec_kind_calls_upto(diff, cfg, n).len() ==> spec_call_from_unskipped(
                diff,
                cfg,
                n,
                #[trigger] spec_kind_calls_upto(diff, cfg, n)[k],
            ),
    decreases n,
{
    if n > 0 {
        lemma_kind_calls_provenance(diff, cfg, n - 1);
        let prev = spec_kind_calls_upto(diff, cfg, n - 1);
        let cur = spec_kind_calls_upto(diff, cfg, n);
        assert forall|k: int| 0 <= k < cur.len() implies spec_call_from_unskipped(
            diff,
            cfg,
            n,
            #[trigger] cur[k],
        ) by {
            if k < prev.len() {
                assert(spec_call_from_unskipped(diff, cfg, n - 1, prev[k]));
                let j = choose|j: int|
                    0 <= j < n - 1 && !cfg.spec_is_skipped((#[trigger] diff.resources@[j]).tag@)
                        && spec_resource_calls(diff.resources@[j]).contains(prev[k]);
                assert(spec_resource_calls(diff.resources@[j]).contains(cur[k]));
            } else {
                let r = diff.resources@[n - 1];
                assert(!cfg.spec_is_skipped(r.tag@));
                assert(spec_resource_calls(r)[k - prev.len()] == cur[k]);
                assert(spec_resource_calls(r).contains(cur[k]));
            }
        }
    }
}

/// Every artifact of the resource pass is the artifact of some non-skipped
/// resource entry (the first that needs its content hash).
proof fn lemma_artifact_provenance(diff: WorldDiff, cfg: MigrationConfig, n: int)
    requires
        0 <= n <= diff.resources@.len(),
    ensures
        forall|k: int|
            0 <= k < spec_artifacts_upto(diff, cfg, n).len() ==> spec_artifact_from_unskipped(
                diff,
                cfg,
                n,
                #[trigger] spec_artifacts_upto(diff, cfg, n)[k],
            ),
    decreases n,
{
    if n > 0 {
        lemma_artifact_provenance(diff, cfg, n - 1);
        let prev = spec_artifacts_upto(diff, cfg, n - 1);
        let cur = spec_artifacts_upto(diff, cfg, n);
        assert forall|k: int| 0 <= k < cur.len() implies spec_artifact_from_unskipped(
            diff,
            cfg,
            n,
            #[trigger] cur[k],
        ) by {
            if k < prev.len() {
                assert(spec_artifact_from_unskipped(diff, cfg, n - 1, prev[k]));
                let j = choose|j: int|
                    0 <= j < n - 1 && !cfg.spec_is_skipped((#[trigger] diff.resources@[j]).tag@)
                        && spec_resource_artifact(diff.resources@[j]) == Some(prev[k]);
                assert(cur[k] == prev[k]);
                assert(0 <= j < n && !cfg.spec_is_skipped(diff.resources@[j].tag@)
                    && spec_resource_artifact(diff.resources@[j]) == Some(cur[k]));
            } else {
                let j = n - 1;
                assert(!cfg.spec_is_skipped(diff.resources@[j].tag@));
                assert(0 <= j < n && !cfg.spec_is_skipped(diff.resources@[j].tag@)
                    && spec_resource_artifact(diff.resources@[j]) == Some(cur[k]));
            }
        }
    }
}

/// Growing the scanned prefix never loses a collected content hash.
proof fn lemma_artifacts_monotonic(diff: WorldDiff, cfg: MigrationConfig, n: int, m: int, h: u64)
    requires
        0 <= n <= m <= diff.resources@.len(),
        spec_contains_casm(spec_artifacts_upto(diff, cfg, n), h),
    ensures
        spec_contains_casm(spec_artifacts_upto(diff, cfg, m), h),
    decreases m - n,
{
    if n < m {
        let prev = spec_artifacts_upto(diff, cfg, m - 1);
        lemma_artifacts_monotonic(diff, cfg, n, m - 1, h);
        let w = choose|i: int| 0 <= i < prev.len() && (#[trigger] prev[i]).casm_class_hash == h;
        assert(spec_artifacts_upto(diff, cfg, m)[w].casm_class_hash == h);
    }
}

/// The artifact set covers every non-skipped entry that needs one.
proof fn lemma_artifacts_cover(diff: WorldDiff, cfg: MigrationConfig, j: int)
    requires
        0 <= j < diff.resources@.len(),
        !cfg.spec_is_skipped(diff.resources@[j].tag@),
        spec_resource_artifact(diff.resources@[j]) is Some,
    ensures
        spec_contains_casm(
            spec_resource_artifacts(diff, cfg),
            spec_resource_artifact(diff.resources@[j])->0.casm_class_hash,
        ),
{
    let a = spec_resource_artifact(diff.resources@[j])->0;
    let prev = spec_artifacts_upto(diff, cfg, j);
    if spec_contains_casm(prev, a.casm_class_hash) {
        lemma_artifacts_monotonic(diff, cfg, j, diff.resources@.len() as int, a.casm_class_hash);
    } else {
        let next = spec_artifacts_upto(diff, cfg, j + 1);
        assert(next[next.len() - 1] == a);
        assert(spec_contains_casm(next, a.casm_class_hash));
        lemma_artifacts_monotonic(
            diff,
            cfg,
            j + 1,
            diff.resources@.len() as int,
            a.casm_class_hash,
        );
    }
}

/// Ordering law: in the resource synchronization step, every namespace
/// registration precedes every other call, so a resource's namespace is
/// always registered before the resource itself.
pub proof fn lemma_namespaces_first(diff: WorldDiff, cfg: MigrationConfig)
    requires
        diff.wf(),
    ensures
        forall|i: int|
            0 <= i < spec_namespace_calls(diff).len() ==> (#[trigger] spec_resource_sync_calls(
                diff,
                cfg,
            )[i]) is RegisterNamespace,
        forall|i: int|
            spec_namespace_calls(diff).len() <= i < spec_resource_sync_calls(diff, cfg).len()
                ==> !((#[trigger] spec_resource_sync_calls(diff, cfg)[i]) is RegisterNamespace),
        forall|i: int, j: int|
            0 <= i < spec_resource_sync_calls(diff, cfg).len() && 0 <= j
                < spec_resource_sync_calls(diff, cfg).len() && (
            #[trigger] spec_resource_sync_calls(diff, cfg)[i]) is RegisterNamespace && (
            #[trigger] spec_resource_sync_calls(diff, cfg)[j]).spec_namespace() is Some ==> i < j,
{
    let ns = spec_namespace_calls(diff);
    let kinds = spec_kind_calls_upto(diff, cfg, diff.resources@.len() as int);
    let calls = spec_resource_sync_calls(diff, cfg);
    lemma_ns_calls_all_ns(diff, diff.namespaces@.len() as int);
    lemma_kind_calls_provenance(diff, cfg, diff.resources@.len() as int);
    assert forall|i: int| ns.len() <= i < calls.len() implies !((#[trigger] calls[i])
        is RegisterNamespace) by {
        let k = i - ns.len();
        assert(calls[i] == kinds[k]);
        assert(spec_call_from_unskipped(diff, cfg, diff.resources@.len() as int, kinds[k]));
        let j = choose|j: int|
            0 <= j < diff.resources@.len() && !cfg.spec_is_skipped(
                (#[trigger] diff.resources@[j]).tag@,
            ) && spec_resource_calls(diff.resources@[j]).contains(kinds[k]);
        lemma_resource_calls_shape(diff.resources@[j]);
    }
    assert forall|i: int, j: int|
        0 <= i < calls.len() && 0 <= j < calls.len() && (#[trigger] calls[i]) is RegisterNamespace
            && (#[trigger] calls[j]).spec_namespace() is Some implies i < j by {
        assert(i < ns.len());
        if j < ns.len() {
            assert(calls[j] is RegisterNamespace);
        }
    }
}

/// Publication-before-reference law: every register or upgrade call of the
/// resource synchronization step references a class hash that some
/// artifact of the same step publishes; the plan publishes all artifacts
/// before flushing any of these calls.
pub proof fn lemma_publication_before_reference(diff: WorldDiff, cfg: MigrationConfig)
    requires
        diff.wf(),
    ensures
        forall|k: int|
            0 <= k < spec_resource_sync_calls(diff, cfg).len() && (
            #[trigger] spec_resource_sync_calls(diff, cfg)[k]).spec_class_hash() is Some
                ==> spec_contains_class(
                spec_resource_artifacts(diff, cfg),
                spec_resource_sync_calls(diff, cfg)[k].spec_class_hash()->0,
            ),
{
    let ns = spec_namespace_calls(diff);
    let kinds = spec_kind_calls_upto(diff, cfg, diff.resources@.len() as int);
    let calls = spec_resource_sync_calls(diff, cfg);
    let arts = spec_resource_artifacts(diff, cfg);
    lemma_ns_calls_all_ns(diff, diff.namespaces@.len() as int);
    lemma_kind_calls_provenance(diff, cfg, diff.resources@.len() as int);
    lemma_artifact_provenance(diff, cfg, diff.resources@.len() as int);
    assert forall|k: int|
        0 <= k < calls.len() && (#[trigger] calls[k]).spec_class_hash() is Some implies spec_contains_class(
        arts,
        calls[k].spec_class_hash()->0,
    ) by {
        if k < ns.len() {
            assert(calls[k] is RegisterNamespace);
            assert(false);
        } else {
            let c = calls[k];
            assert(c == kinds[k - ns.len()]);
            assert(spec_call_from_unskipped(diff, cfg, diff.resources@.len() as int, c));
            let j = choose|j: int|
                0 <= j < diff.resources@.len() && !cfg.spec_is_skipped(
                    (#[trigger] diff.resources@[j]).tag@,
                ) && spec_resource_calls(diff.resources@[j]).contains(c);
            let r = diff.resources@[j];
            lemma_resource_calls_shape(r);
            assert(c.spec_class_hash() == Some(r.class_hash));
            assert(spec_resource_calls(r).len() > 0);
            assert(spec_resource_artifact(r) matches Some(a) && a.casm_class_hash
                == r.casm_class_hash && a.class_hash == r.class_hash);
            lemma_artifacts_cover(diff, cfg, j);
            let w = choose|i: int|
                0 <= i < arts.len() && (#[trigger] arts[i]).casm_class_hash == r.casm_class_hash;
            assert(spec_artifact_from_unskipped(diff, cfg, diff.resources@.len() as int, arts[w]));
            let j2 = choose|j2: int|
                0 <= j2 < diff.resources@.len() && !cfg.spec_is_skipped(
                    (#[trigger] diff.resources@[j2]).tag@,
                ) && spec_resource_artifact(diff.resources@[j2]) == Some(arts[w]);
            assert(diff.resources@[j2].casm_class_hash == r.casm_class_hash);
            assert(diff.resources@[j2].class_hash == r.class_hash);
            assert(arts[w].class_hash == r.class_hash);
        }
    }
}

/// Skip-list exclusion law, provenance form: every call of the per-kind
/// pass and every artifact of the resource synchronization step stems from
/// a resource that is not skip-listed, and every artifact is labeled with
/// a non-skipped resource's tag; so nothing there is emitted for a
/// skip-listed resource.
pub proof fn lemma_skip_excluded_from_resources(diff: WorldDiff, cfg: MigrationConfig)
    requires
        diff.wf(),
    ensures
        forall|k: int|
            spec_namespace_calls(diff).len() <= k < spec_resource_sync_calls(diff, cfg).len()
                ==> spec_call_from_unskipped(
                diff,
                cfg,
                diff.resources@.len() as int,
                #[trigger] spec_resource_sync_calls(diff, cfg)[k],
            ),
        forall|k: int|
            0 <= k < spec_resource_artifacts(diff, cfg).len() ==> spec_artifact_from_unskipped(
                diff,
                cfg,
                diff.resources@.len() as int,
                #[trigger] spec_resource_artifacts(diff, cfg)[k],
            ),
        forall|k: int|
            0 <= k < spec_resource_artifacts(diff, cfg).len() ==> spec_label_of_unskipped(
                diff,
                cfg,
                #[trigger] spec_resource_artifacts(diff, cfg)[k],
            ),
{
    let ns = spec_namespace_calls(diff);
    let kinds = spec_kind_calls_upto(diff, cfg, diff.resources@.len() as int);
    let calls = spec_resource_sync_calls(diff, cfg);
    lemma_kind_calls_provenance(diff, cfg, diff.resources@.len() as int);
    lemma_artifact_provenance(diff, cfg, diff.resources@.len() as int);
    assert forall|k: int| ns.len() <= k < calls.len() implies spec_call_from_unskipped(
        diff,
        cfg,
        diff.resources@.len() as int,
        #[trigger] calls[k],
    ) by {
        assert(calls[k] == kinds[k - ns.len()]);
        assert(spec_call_from_unskipped(
            diff,
            cfg,
            diff.resources@.len() as int,
            kinds[k - ns.len()],
        ));
    }
    assert forall|k: int| 0 <= k < spec_resource_artifacts(diff, cfg).len() implies spec_label_of_unskipped(
        diff,
        cfg,
        #[trigger] spec_resource_artifacts(diff, cfg)[k],
    ) by {
        let a = spec_resource_artifacts(diff, cfg)[k];
        assert(spec_artifact_from_unskipped(diff, cfg, diff.resources@.len() as int, a));
        let j = choose|j: int|
            0 <= j < diff.resources@.len() && !cfg.spec_is_skipped(
                (#[trigger] diff.resources@[j]).tag@,
            ) && spec_resource_artifact(diff.resources@[j]) == Some(a);
        assert(a.label@ == diff.resources@[j].tag@);
    }
}


/// Number of occurrences of `v` in `s`.
pub open spec fn spec_count_idx(s: Seq<int>, v: int) -> int
    decreases s.len(),
{
    if s.len() == 0 {
        0
    } else {
        spec_count_idx(s.drop_last(), v) + if s.last() == v {
            1int
        } else {
            0int
        }
    }
}

/// Counting distributes over concatenation.
proof fn lemma_count_idx_concat(a: Seq<int>, b: Seq<int>, v: int)
    ensures
        spec_count_idx(a + b, v) == spec_count_idx(a, v) + spec_count_idx(b, v),
    decreases b.len(),
{
    if b.len() == 0 {
        assert(a + b =~= a);
    } else {
        lemma_count_idx_concat(a, b.drop_last(), v);
        assert((a + b).drop_last() =~= a + b.drop_last());
        assert((a + b).last() == b.last());
    }
}


/// A tag that occurs in the order list occurs there a first time.
proof fn lemma_order_first_occurrence(cfg: MigrationConfig, tag: Seq<char>, w: int)
    requires
        0 <= w < cfg.order_inits@.len(),
        cfg.order_inits@[w]@ == tag,
    ensures
        exists|q: int|
            0 <= q < cfg.order_inits@.len() && (#[trigger] cfg.order_inits@[q])@ == tag && forall|
                j: int,
            | 0 <= j < q ==> (#[trigger] cfg.order_inits@[j])@ != tag,
    decreases w,
{
    if forall|j: int| 0 <= j < w ==> (#[trigger] cfg.order_inits@[j])@ != tag {
        assert(0 <= w < cfg.order_inits@.len() && cfg.order_inits@[w]@ == tag && forall|j: int|
            0 <= j < w ==> (#[trigger] cfg.order_inits@[j])@ != tag);
    } else {
        let w2 = choose|j: int| 0 <= j < w && (#[trigger] cfg.order_inits@[j])@ == tag;
        lemma_order_first_occurrence(cfg, tag, w2);
    }
}

/// What a defined order-list position means: the position carries the tag,
/// nothing before it does.
proof fn lemma_order_position_props(cfg: MigrationConfig, tag: Seq<char>)
    ensures
        cfg.spec_order_position(tag) matches Some(q) ==> 0 <= q < cfg.order_inits@.len()
            && cfg.order_inits@[q]@ == tag && forall|j: int|
            0 <= j < q ==> (#[trigger] cfg.order_inits@[j])@ != tag,
{
    if cfg.spec_order_position(tag) matches Some(q) {
        let w = choose|i: int|
            0 <= i < cfg.order_inits@.len() && (#[trigger] cfg.order_inits@[i])@ == tag;
        lemma_order_first_occurrence(cfg, tag, w);
    }
}

/// How often a resource index occurs in the unordered part of the
/// initialization order: once when it is selected and its tag is not on
/// the order list, never otherwise.
#[verifier::rlimit(100)]
#[verifier::spinoff_prover]
proof fn lemma_unordered_count(diff: WorldDiff, cfg: MigrationConfig, n: int, i: int)
    requires
        0 <= n <= diff.resources@.len(),
        0 <= i < diff.resources@.len(),
    ensures
        spec_count_idx(spec_unordered_init_upto(diff, cfg, n), i) == if i < n
            && spec_init_selected(cfg, diff.resources@[i]) && cfg.spec_order_position(
            diff.resources@[i].tag@,
        ) is None {
            1int
        } else {
            0int
        },
    decreases n,
{
    if n > 0 {
        lemma_unordered_count(diff, cfg, n - 1, i);
        let r = diff.resources@[n - 1];
        let tail: Seq<int> = if spec_init_selected(cfg, r) && cfg.spec_order_position(
            r.tag@,
        ) is None {
            seq![n - 1]
        } else {
            Seq::empty()
        };
        lemma_count_idx_concat(spec_unordered_init_upto(diff, cfg, n - 1), tail, i);
        assert(spec_count_idx(Seq::<int>::empty(), i) == 0);
        if tail.len() == 1 {
            assert(tail.drop_last() =~= Seq::<int>::empty());
            assert(spec_count_idx(tail, i) == if i == n - 1 {
                1int
            } else {
                0int
            });
        } else {
            assert(spec_count_idx(tail, i) == 0);
        }
        assert(spec_unordered_init_upto(diff, cfg, n) == spec_unordered_init_upto(diff, cfg, n - 1)
            + tail);
    }
}

/// How often a resource index occurs in the ordered part of the
/// initialization order: once when it is selected and its tag sits at a
/// position of the order list below `p`, never otherwise.
#[verifier::rlimit(100)]
#[verifier::spinoff_prover]
proof fn lemma_ordered_count(diff: WorldDiff, cfg: MigrationConfig, p: int, i: int)
    requires
        diff.wf(),
        0 <= p <= cfg.order_inits@.len(),
        0 <= i < diff.resources@.len(),
    ensures
        spec_count_idx(spec_ordered_init_upto(diff, cfg, p), i) == if spec_init_selected(
            cfg,
            diff.resources@[i],
        ) && cfg.spec_order_position(diff.resources@[i].tag@) is Some && cfg.spec_order_position(
            diff.resources@[i].tag@,
        )->0 < p {
            1int
        } else {
            0int
        },
    decreases p,
{
    lemma_order_position_props(cfg, diff.resources@[i].tag@);
    if p <= 0 {
        assert(spec_ordered_init_upto(diff, cfg, p) =~= Seq::<int>::empty());
        assert(spec_count_idx(spec_ordered_init_upto(diff, cfg, p), i) == 0);
    }
    if p > 0 {
        lemma_ordered_count(diff, cfg, p - 1, i);
        let active = spec_order_slot_active(diff, cfg, p - 1);
        let tail: Seq<int> = if active {
            seq![spec_resource_index_by_tag(diff, cfg.order_inits@[p - 1]@)]
        } else {
            Seq::empty()
        };
        lemma_count_idx_concat(spec_ordered_init_upto(diff, cfg, p - 1), tail, i);
        assert(spec_count_idx(Seq::<int>::empty(), i) == 0);
        if tail.len() == 1 {
            assert(tail.drop_last() =~= Seq::<int>::empty());
            assert(spec_count_idx(tail, i) == if tail.last() == i {
                1int
            } else {
                0int
            });
        } else {
            assert(spec_count_idx(tail, i) == 0);
        }
        assert(spec_ordered_init_upto(diff, cfg, p) == spec_ordered_init_upto(diff, cfg, p - 1)
            + tail);
        if active {
            let t = cfg.order_inits@[p - 1]@;
            let k = spec_resource_index_by_tag(diff, t);
            assert(0 <= k < diff.resources@.len() && diff.resources@[k].tag@ == t
                && spec_init_selected(cfg, diff.resources@[k])) by {
                let w = choose|w: int|
                    0 <= w < diff.resources@.len() && (#[trigger] diff.resources@[w]).tag@ == t
                        && spec_init_selected(cfg, diff.resources@[w]);
                assert(0 <= k < diff.resources@.len() && diff.resources@[k].tag@ == t);
                if k != w {
                    assert(diff.resources@[k].tag@ != diff.resources@[w].tag@);
                }
            }
            if k == i {
                assert(diff.resources@[i].tag@ == t);
                assert(cfg.spec_order_position(t) == Some(p - 1));
            } else {
                assert(diff.resources@[i].tag@ != t);
                lemma_order_position_props(cfg, diff.resources@[i].tag@);
                let posi = cfg.spec_order_position(diff.resources@[i].tag@);
                if posi is Some && posi->0 == p - 1 {
                    assert(cfg.order_inits@[p - 1]@ == diff.resources@[i].tag@);
                }
            }
        } else {
            lemma_order_position_props(cfg, diff.resources@[i].tag@);
            if spec_init_selected(cfg, diff.resources@[i]) && (cfg.spec_order_position(
                diff.resources@[i].tag@,
            ) matches Some(q) && q == p - 1) {
                assert(cfg.order_inits@[p - 1]@ == diff.resources@[i].tag@);
                assert(cfg.spec_order_position(cfg.order_inits@[p - 1]@) == Some(p - 1));
                assert(spec_order_slot_active(diff, cfg, p - 1));
            }
        }
        let posi = cfg.spec_order_position(diff.resources@[i].tag@);
        if spec_init_selected(cfg, diff.resources@[i]) && posi is Some && posi->0 < p {
            assert(spec_count_idx(spec_ordered_init_upto(diff, cfg, p), i) == 1);
        } else {
            assert(spec_count_idx(spec_ordered_init_upto(diff, cfg, p), i) == 0);
        }
    }
}

/// Initialization-eligibility law: the initialization step emits exactly
/// one call for every selected contract (a created contract, or an
/// existing one the remote observation reports uninitialized, in both
/// cases not skip-listed), and none for any other resource.
#[verifier::rlimit(100)]
#[verifier::spinoff_prover]
pub proof fn lemma_init_exactly_once(diff: WorldDiff, cfg: MigrationConfig, i: int)
    requires
        diff.wf(),
        0 <= i < diff.resources@.len(),
    ensures
        spec_count_idx(spec_init_order(diff, cfg), i) == if spec_init_selected(
            cfg,
            diff.resources@[i],
        ) {
            1int
        } else {
            0int
        },
{
    let u = spec_unordered_init_upto(diff, cfg, diff.resources@.len() as int);
    let o = spec_ordered_init_upto(diff, cfg, cfg.order_inits@.len() as int);
    lemma_count_idx_concat(u, o, i);
    lemma_unordered_count(diff, cfg, diff.resources@.len() as int, i);
    lemma_ordered_count(diff, cfg, cfg.order_inits@.len() as int, i);
    lemma_order_position_props(cfg, diff.resources@[i].tag@);
    let posi = cfg.spec_order_position(diff.resources@[i].tag@);
    if posi is Some {
        assert(0 <= posi->0 < cfg.order_inits@.len());
    }
}

/// The element an active order-list slot contributes keeps its place as
/// later slots are scanned.
#[verifier::rlimit(100)]
#[verifier::spinoff_prover]
proof fn lemma_ordered_snapshot(diff: WorldDiff, cfg: MigrationConfig, p: int, bound: int)
    requires
        diff.wf(),
        0 <= p < bound <= cfg.order_inits@.len(),
        spec_order_slot_active(diff, cfg, p),
    ensures
        spec_ordered_init_upto(diff, cfg, p).len() < spec_ordered_init_upto(diff, cfg, bound).len(),
        spec_ordered_init_upto(diff, cfg, bound)[spec_ordered_init_upto(diff, cfg, p).len() as int]
            == spec_resource_index_by_tag(diff, cfg.order_inits@[p]@),
    decreases bound - p,
{
    if bound == p + 1 {
    } else {
        lemma_ordered_snapshot(diff, cfg, p, bound - 1);
    }
}

/// Initialization-ordering law: when two tags both sit on the order list
/// at positions `pb < pa` and both slots contribute a call, the call of
/// the tag at `pb` precedes the call of the tag at `pa` in the final
/// initialization order, whatever order the diff lists the resources in.
#[verifier::rlimit(100)]
#[verifier::spinoff_prover]
pub proof fn lemma_init_order_respected(diff: WorldDiff, cfg: MigrationConfig, pb: int, pa: int)
    requires
        diff.wf(),
        0 <= pb < pa < cfg.order_inits@.len(),
        spec_order_slot_active(diff, cfg, pb),
        spec_order_slot_active(diff, cfg, pa),
    ensures
        spec_unordered_init_upto(diff, cfg, diff.resources@.len() as int).len()
            + spec_ordered_init_upto(diff, cfg, pb).len() < spec_unordered_init_upto(
            diff,
            cfg,
            diff.resources@.len() as int,
        ).len() + spec_ordered_init_upto(diff, cfg, pa).len() < spec_init_order(diff, cfg).len(),
        spec_init_order(diff, cfg)[spec_unordered_init_upto(
            diff,
            cfg,
            diff.resources@.len() as int,
        ).len() + spec_ordered_init_upto(diff, cfg, pb).len() as int]
            == spec_resource_index_by_tag(diff, cfg.order_inits@[pb]@),
        spec_init_order(diff, cfg)[spec_unordered_init_upto(
            diff,
            cfg,
            diff.resources@.len() as int,
        ).len() + spec_ordered_init_upto(diff, cfg, pa).len() as int]
            == spec_resource_index_by_tag(diff, cfg.order_inits@[pa]@),
{
    let full = cfg.order_inits@.len() as int;
    lemma_ordered_snapshot(diff, cfg, pb, pa);
    lemma_ordered_snapshot(diff, cfg, pb, full);
    lemma_ordered_snapshot(diff, cfg, pa, full);
}


/// Number of occurrences of `c` in `s`.
pub open spec fn spec_count_call(s: Seq<Call>, c: Call) -> int
    decreases s.len(),
{
    if s.len() == 0 {
        0
    } else {
        spec_count_call(s.drop_last(), c) + if s.last() == c {
            1int
        } else {
            0int
        }
    }
}

/// Counting distributes over concatenation.
proof fn lemma_count_call_concat(a: Seq<Call>, b: Seq<Call>, c: Call)
    ensures
        spec_count_call(a + b, c) == spec_count_call(a, c) + spec_count_call(b, c),
    decreases b.len(),
{
    if b.len() == 0 {
        assert(a + b =~= a);
    } else {
        lemma_count_call_concat(a, b.drop_last(), c);
        assert((a + b).drop_last() =~= a + b.drop_last());
        assert((a + b).last() == b.last());
    }
}

/// How often a writer grant occurs among the calls of one resource's
/// writer entries: once when the grantee has a local-only entry, never
/// otherwise; owner grants never occur there.
proof fn lemma_writer_fold_count(r: ResourceEntry, n: int, c: Call)
    requires
        r.wf(),
        0 <= n <= r.writers@.len(),
    ensures
        c matches Call::GrantWriter { resource, grantee } ==> spec_count_call(
            spec_writer_calls_upto(r, n),
            c,
        ) == if resource == r.selector && exists|w: int|
            0 <= w < n && (#[trigger] r.writers@[w]).grantee == grantee
                && r.writers@[w].state is LocalOnly {
            1int
        } else {
            0int
        },
        !(c is GrantWriter) ==> spec_count_call(spec_writer_calls_upto(r, n), c) == 0,
    decreases n,
{
    assert(spec_count_call(Seq::<Call>::empty(), c) == 0);
    if n > 0 {
        lemma_writer_fold_count(r, n - 1, c);
        let tail: Seq<Call> = if r.writers@[n - 1].state is LocalOnly {
            seq![Call::GrantWriter { resource: r.selector, grantee: r.writers@[n - 1].grantee }]
        } else {
            Seq::empty()
        };
        lemma_count_call_concat(spec_writer_calls_upto(r, n - 1), tail, c);
        if tail.len() == 1 {
            assert(tail.drop_last() =~= Seq::<Call>::empty());
        }
        assert(spec_writer_calls_upto(r, n) == spec_writer_calls_upto(r, n - 1) + tail);
        if c is GrantWriter {
            if c->GrantWriter_resource == r.selector && r.writers@[n - 1].grantee
                == c->GrantWriter_grantee && r.writers@[n - 1].state is LocalOnly {
                assert(forall|w: int|
                    0 <= w < n - 1 ==> (#[trigger] r.writers@[w]).grantee
                        != c->GrantWriter_grantee);
            }
        }
    }
}

/// The owner analogue of [`lemma_writer_fold_count`].
proof fn lemma_owner_fold_count(r: ResourceEntry, n: int, c: Call)
    requires
        r.wf(),
        0 <= n <= r.owners@.len(),
    ensures
        c matches Call::GrantOwner { resource, grantee } ==> spec_count_call(
            spec_owner_calls_upto(r, n),
            c,
        ) == if resource == r.selector && exists|w: int|
            0 <= w < n && (#[trigger] r.owners@[w]).grantee == grantee
                && r.owners@[w].state is LocalOnly {
            1int
        } else {
            0int
        },
        !(c is GrantOwner) ==> spec_count_call(spec_owner_calls_upto(r, n), c) == 0,
    decreases n,
{
    assert(spec_count_call(Seq::<Call>::empty(), c) == 0);
    if n > 0 {
        lemma_owner_fold_count(r, n - 1, c);
        let tail: Seq<Call> = if r.owners@[n - 1].state is LocalOnly {
            seq![Call::GrantOwner { resource: r.selector, grantee: r.owners@[n - 1].grantee }]
        } else {
            Seq::empty()
        };
        lemma_count_call_concat(spec_owner_calls_upto(r, n - 1), tail, c);
        if tail.len() == 1 {
            assert(tail.drop_last() =~= Seq::<Call>::empty());
        }
        assert(spec_owner_calls_upto(r, n) == spec_owner_calls_upto(r, n - 1) + tail);
        if c is GrantOwner {
            if c->GrantOwner_resource == r.selector && r.owners@[n - 1].grantee
                == c->GrantOwner_grantee && r.owners@[n - 1].state is LocalOnly {
                assert(forall|w: int|
                    0 <= w < n - 1 ==> (#[trigger] r.owners@[w]).grantee
                        != c->GrantOwner_grantee);
            }
        }
    }
}

/// Whether a grant call targets the resource with selector `sel`.
pub open spec fn spec_grant_target(c: Call) -> Option<u64> {
    match c {
        Call::GrantWriter { resource, .. } => Some(resource),
        Call::GrantOwner { resource, .. } => Some(resource),
        _ => None,
    }
}

/// How often a grant call targeting the resource at index `i` occurs in
/// the permission step over the first `n` resources.
proof fn lemma_permission_count(diff: WorldDiff, cfg: MigrationConfig, n: int, i: int, c: Call)
    requires
        diff.wf(),
        0 <= n <= diff.resources@.len(),
        0 <= i < diff.resources@.len(),
        spec_grant_target(c) == Some(diff.resources@[i].selector),
    ensures
        spec_count_call(spec_permission_calls_upto(diff, cfg, n), c) == if i < n
            && !cfg.spec_is_skipped(diff.resources@[i].tag@) {
            spec_count_call(spec_grant_calls(diff.resources@[i]), c)
        } else {
            0int
        },
    decreases n,
{
    assert(spec_count_call(Seq::<Call>::empty(), c) == 0);
    if n > 0 {
        lemma_permission_count(diff, cfg, n - 1, i, c);
        let r = diff.resources@[n - 1];
        let tail: Seq<Call> = if cfg.spec_is_skipped(r.tag@) {
            Seq::empty()
        } else {
            spec_grant_calls(r)
        };
        lemma_count_call_concat(spec_permission_calls_upto(diff, cfg, n - 1), tail, c);
        assert(spec_permission_calls_upto(diff, cfg, n) == spec_permission_calls_upto(
            diff,
            cfg,
            n - 1,
        ) + tail);
        if n - 1 != i && !cfg.spec_is_skipped(r.tag@) {
            assert(r.selector != diff.resources@[i].selector);
            lemma_count_call_concat(
                spec_writer_calls_upto(r, r.writers@.len() as int),
                spec_owner_calls_upto(r, r.owners@.len() as int),
                c,
            );
            lemma_writer_fold_count(r, r.writers@.len() as int, c);
            lemma_owner_fold_count(r, r.owners@.len() as int, c);
            assert(spec_count_call(tail, c) == 0);
        }
    }
}

/// Permission-grant law: a local-only writer or owner entry of a
/// non-skipped resource yields exactly one grant call with that grantee
/// and that target, and an entry classified synced or remote-only yields
/// none.
pub proof fn lemma_permission_grants(diff: WorldDiff, cfg: MigrationConfig, i: int, w: int)
    requires
        diff.wf(),
        0 <= i < diff.resources@.len(),
    ensures
        0 <= w < diff.resources@[i].writers@.len() ==> spec_count_call(
            spec_permission_calls(diff, cfg),
            Call::GrantWriter {
                resource: diff.resources@[i].selector,
                grantee: diff.resources@[i].writers@[w].grantee,
            },
        ) == if diff.resources@[i].writers@[w].state is LocalOnly && !cfg.spec_is_skipped(
            diff.resources@[i].tag@,
        ) {
            1int
        } else {
            0int
        },
        0 <= w < diff.resources@[i].owners@.len() ==> spec_count_call(
            spec_permission_calls(diff, cfg),
            Call::GrantOwner {
                resource: diff.resources@[i].selector,
                grantee: diff.resources@[i].owners@[w].grantee,
            },
        ) == if diff.resources@[i].owners@[w].state is LocalOnly && !cfg.spec_is_skipped(
            diff.resources@[i].tag@,
        ) {
            1int
        } else {
            0int
        },
{
    let r = diff.resources@[i];
    let n = diff.resources@.len() as int;
    if 0 <= w < r.writers@.len() {
        let c = Call::GrantWriter { resource: r.selector, grantee: r.writers@[w].grantee };
        lemma_permission_count(diff, cfg, n, i, c);
        lemma_count_call_concat(
            spec_writer_calls_upto(r, r.writers@.len() as int),
            spec_owner_calls_upto(r, r.owners@.len() as int),
            c,
        );
        lemma_writer_fold_count(r, r.writers@.len() as int, c);
        lemma_owner_fold_count(r, r.owners@.len() as int, c);
        assert(r.wf());
        if r.writers@[w].state is LocalOnly {
            assert(exists|w2: int|
                0 <= w2 < r.writers@.len() && (#[trigger] r.writers@[w2]).grantee
                    == r.writers@[w].grantee && r.writers@[w2].state is LocalOnly);
        } else {
            assert forall|w2: int|
                0 <= w2 < r.writers@.len() && (#[trigger] r.writers@[w2]).grantee
                    == r.writers@[w].grantee implies !(r.writers@[w2].state is LocalOnly) by {
                if w2 != w {
                    assert(r.writers@[w2].grantee != r.writers@[w].grantee);
                }
            }
        }
    }
    if 0 <= w < r.owners@.len() {
        let c = Call::GrantOwner { resource: r.selector, grantee: r.owners@[w].grantee };
        lemma_permission_count(diff, cfg, n, i, c);
        lemma_count_call_concat(
            spec_writer_calls_upto(r, r.writers@.len() as int),
            spec_owner_calls_upto(r, r.owners@.len() as int),
            c,
        );
        lemma_writer_fold_count(r, r.writers@.len() as int, c);
        lemma_owner_fold_count(r, r.owners@.len() as int, c);
        if r.owners@[w].state is LocalOnly {
            assert(exists|w2: int|
                0 <= w2 < r.owners@.len() && (#[trigger] r.owners@[w2]).grantee
                    == r.owners@[w].grantee && r.owners@[w2].state is LocalOnly);
        } else {
            assert forall|w2: int|
                0 <= w2 < r.owners@.len() && (#[trigger] r.owners@[w2]).grantee
                    == r.owners@[w].grantee implies !(r.owners@[w2].state is LocalOnly) by {
                if w2 != w {
                    assert(r.owners@[w2].grantee != r.owners@[w].grantee);
                }
            }
        }
    }
}


/// Whether one resource entry is in its declared state as far as the
/// planner is concerned: its code is synced (or the resource is skipped),
/// no local-only permission entry is pending, and no initialization is
/// due.
pub open spec fn spec_resource_converged(cfg: MigrationConfig, r: ResourceEntry) -> bool {
    &&& r.kind is Namespace ==> r.status is Synced
    &&& !(r.kind is Namespace) && !cfg.spec_is_skipped(r.tag@) ==> r.status is Synced
    &&& !cfg.spec_is_skipped(r.tag@) ==> (forall|w: int|
        0 <= w < r.writers@.len() ==> !((#[trigger] r.writers@[w]).state is LocalOnly)) && (forall|
        w: int,
    | 0 <= w < r.owners@.len() ==> !((#[trigger] r.owners@[w]).state is LocalOnly))
    &&& !spec_init_selected(cfg, r)
}

/// Whether the whole snapshot is converged: the registry is current (or
/// untouchable in guest mode), every resource is converged, and no
/// external class or contract awaits creation.
pub open spec fn spec_converged(diff: WorldDiff, cfg: MigrationConfig) -> bool {
    &&& cfg.guest || diff.world.status is Synced
    &&& forall|i: int|
        0 <= i < diff.resources@.len() ==> spec_resource_converged(
            cfg,
            #[trigger] diff.resources@[i],
        )
    &&& forall|j: int|
        0 <= j < diff.external_classes@.len() ==> !((#[trigger] diff.external_classes@[j]).status
            is Created)
    &&& forall|j: int|
        0 <= j < diff.external_contracts@.len() ==> !((
        #[trigger] diff.external_contracts@[j]).status is Created)
}

/// Prefix lengths of each pass only grow with the scanned prefix.
proof fn lemma_ns_len_monotonic(diff: WorldDiff, n: int, m: int)
    requires
        0 <= n <= m <= diff.namespaces@.len(),
    ensures
        spec_namespace_calls_upto(diff, n).len() <= spec_namespace_calls_upto(diff, m).len(),
    decreases m - n,
{
    if n < m {
        lemma_ns_len_monotonic(diff, n, m - 1);
    }
}

proof fn lemma_kind_len_monotonic(diff: WorldDiff, cfg: MigrationConfig, n: int, m: int)
    requires
        0 <= n <= m <= diff.resources@.len(),
    ensures
        spec_kind_calls_upto(diff, cfg, n).len() <= spec_kind_calls_upto(diff, cfg, m).len(),
    decreases m - n,
{
    if n < m {
        lemma_kind_len_monotonic(diff, cfg, n, m - 1);
    }
}

proof fn lemma_perm_len_monotonic(diff: WorldDiff, cfg: MigrationConfig, n: int, m: int)
    requires
        0 <= n <= m <= diff.resources@.len(),
    ensures
        spec_permission_calls_upto(diff, cfg, n).len() <= spec_permission_calls_upto(
            diff,
            cfg,
            m,
        ).len(),
    decreases m - n,
{
    if n < m {
        lemma_perm_len_monotonic(diff, cfg, n, m - 1);
    }
}

proof fn lemma_external_len_monotonic(diff: WorldDiff, n: int, m: int)
    requires
        0 <= n <= m <= diff.external_contracts@.len(),
    ensures
        spec_external_deploy_indices_upto(diff, n).len() <= spec_external_deploy_indices_upto(
            diff,
            m,
        ).len(),
    decreases m - n,
{
    if n < m {
        lemma_external_len_monotonic(diff, n, m - 1);
    }
}

proof fn lemma_external_arts_len_monotonic(diff: WorldDiff, n: int, m: int)
    requires
        0 <= n <= m <= diff.external_classes@.len(),
    ensures
        spec_external_artifacts_upto(diff, n).len() <= spec_external_artifacts_upto(diff, m).len(),
    decreases m - n,
{
    if n < m {
        lemma_external_arts_len_monotonic(diff, n, m - 1);
    }
}

/// When every resource is converged, each pass of the plan is empty; and
/// conversely any divergence makes its pass non-empty.
proof fn lemma_ns_calls_empty(diff: WorldDiff, n: int)
    requires
        diff.wf(),
        0 <= n <= diff.namespaces@.len(),
        forall|k: int|
            0 <= k < diff.resources@.len() && (#[trigger] diff.resources@[k]).kind is Namespace
                ==> diff.resources@[k].status is Synced,
    ensures
        spec_namespace_calls_upto(diff, n).len() == 0,
    decreases n,
{
    if n > 0 {
        lemma_ns_calls_empty(diff, n - 1);
        let idx = spec_resource_index(diff, diff.namespaces@[n - 1]);
        assert(exists|k: int|
            0 <= k < diff.resources@.len() && (#[trigger] diff.resources@[k]).selector
                == diff.namespaces@[n - 1] && diff.resources@[k].kind is Namespace);
        assert(0 <= idx < diff.resources@.len() && diff.resources@[idx].selector
            == diff.namespaces@[n - 1]);
        let w = choose|k: int|
            0 <= k < diff.resources@.len() && (#[trigger] diff.resources@[k]).selector
                == diff.namespaces@[n - 1] && diff.resources@[k].kind is Namespace;
        if idx != w {
            assert(diff.resources@[idx].selector != diff.resources@[w].selector);
        }
        assert(diff.resources@[idx].kind is Namespace);
    }
}

proof fn lemma_kind_calls_empty(diff: WorldDiff, cfg: MigrationConfig, n: int)
    requires
        0 <= n <= diff.resources@.len(),
        forall|i: int|
            0 <= i < diff.resources@.len() ==> spec_resource_converged(
                cfg,
                #[trigger] diff.resources@[i],
            ),
    ensures
        spec_kind_calls_upto(diff, cfg, n).len() == 0,
        spec_artifacts_upto(diff, cfg, n).len() == 0,
    decreases n,
{
    if n > 0 {
        lemma_kind_calls_empty(diff, cfg, n - 1);
    }
}

proof fn lemma_grant_calls_empty(r: ResourceEntry)
    requires
        forall|w: int| 0 <= w < r.writers@.len() ==> !((#[trigger] r.writers@[w]).state is LocalOnly),
        forall|w: int| 0 <= w < r.owners@.len() ==> !((#[trigger] r.owners@[w]).state is LocalOnly),
    ensures
        spec_grant_calls(r).len() == 0,
{
    lemma_writer_fold_empty(r, r.writers@.len() as int);
    lemma_owner_fold_empty(r, r.owners@.len() as int);
}

proof fn lemma_writer_fold_empty(r: ResourceEntry, n: int)
    requires
        0 <= n <= r.writers@.len(),
        forall|w: int| 0 <= w < r.writers@.len() ==> !((#[trigger] r.writers@[w]).state is LocalOnly),
    ensures
        spec_writer_calls_upto(r, n).len() == 0,
    decreases n,
{
    if n > 0 {
        lemma_writer_fold_empty(r, n - 1);
    }
}

proof fn lemma_owner_fold_empty(r: ResourceEntry, n: int)
    requires
        0 <= n <= r.owners@.len(),
        forall|w: int| 0 <= w < r.owners@.len() ==> !((#[trigger] r.owners@[w]).state is LocalOnly),
    ensures
        spec_owner_calls_upto(r, n).len() == 0,
    decreases n,
{
    if n > 0 {
        lemma_owner_fold_empty(r, n - 1);
    }
}

proof fn lemma_perm_calls_empty(diff: WorldDiff, cfg: MigrationConfig, n: int)
    requires
        0 <= n <= diff.resources@.len(),
        forall|i: int|
            0 <= i < diff.resources@.len() ==> spec_resource_converged(
                cfg,
                #[trigger] diff.resources@[i],
            ),
    ensures
        spec_permission_calls_upto(diff, cfg, n).len() == 0,
    decreases n,
{
    if n > 0 {
        lemma_perm_calls_empty(diff, cfg, n - 1);
        let r = diff.resources@[n - 1];
        if !cfg.spec_is_skipped(r.tag@) {
            lemma_grant_calls_empty(r);
        }
    }
}

proof fn lemma_unordered_empty(diff: WorldDiff, cfg: MigrationConfig, n: int)
    requires
        0 <= n <= diff.resources@.len(),
        forall|i: int|
            0 <= i < diff.resources@.len() ==> !spec_init_selected(
                cfg,
                #[trigger] diff.resources@[i],
            ),
    ensures
        spec_unordered_init_upto(diff, cfg, n).len() == 0,
    decreases n,
{
    if n > 0 {
        lemma_unordered_empty(diff, cfg, n - 1);
    }
}

proof fn lemma_ordered_empty(diff: WorldDiff, cfg: MigrationConfig, p: int)
    requires
        0 <= p <= cfg.order_inits@.len(),
        forall|i: int|
            0 <= i < diff.resources@.len() ==> !spec_init_selected(
                cfg,
                #[trigger] diff.resources@[i],
            ),
    ensures
        spec_ordered_init_upto(diff, cfg, p).len() == 0,
    decreases p,
{
    if p > 0 {
        lemma_ordered_empty(diff, cfg, p - 1);
        if spec_order_slot_active(diff, cfg, p - 1) {
            let k = choose|k: int|
                0 <= k < diff.resources@.len() && (#[trigger] diff.resources@[k]).tag@
                    == cfg.order_inits@[p - 1]@ && spec_init_selected(cfg, diff.resources@[k]);
            assert(false);
        }
    }
}

proof fn lemma_external_empty(diff: WorldDiff, n: int, m: int)
    requires
        0 <= n <= diff.external_contracts@.len(),
        0 <= m <= diff.external_classes@.len(),
        forall|j: int|
            0 <= j < diff.external_classes@.len() ==> !((#[trigger] diff.external_classes@[j]).status
                is Created),
        forall|j: int|
            0 <= j < diff.external_contracts@.len() ==> !((
            #[trigger] diff.external_contracts@[j]).status is Created),
    ensures
        spec_external_deploy_indices_upto(diff, n).len() == 0,
        spec_external_artifacts_upto(diff, m).len() == 0,
    decreases n + m,
{
    if n > 0 {
        lemma_external_empty(diff, n - 1, m);
    } else if m > 0 {
        lemma_external_empty(diff, n, m - 1);
    }
}

/// Idempotence law: the plan reports work exactly when something
/// diverges.  Re-running a migration over a re-computed diff with no
/// external changes therefore reports nothing to do: every step of the
/// first run leaves its slice of the state converged, and a converged
/// snapshot plans an empty run.
#[verifier::rlimit(100)]
#[verifier::spinoff_prover]
pub proof fn lemma_idempotence(diff: WorldDiff, cfg: MigrationConfig)
    requires
        diff.wf(),
        !crate::resources::spec_library_violation(diff, cfg),
    ensures
        crate::spec_has_changes(diff, cfg) == !spec_converged(diff, cfg),
{
    let rn = diff.resources@.len() as int;
    if spec_converged(diff, cfg) {
        lemma_ns_calls_empty(diff, diff.namespaces@.len() as int);
        lemma_kind_calls_empty(diff, cfg, rn);
        lemma_perm_calls_empty(diff, cfg, rn);
        lemma_unordered_empty(diff, cfg, rn);
        lemma_ordered_empty(diff, cfg, cfg.order_inits@.len() as int);
        lemma_external_empty(
            diff,
            diff.external_contracts@.len() as int,
            diff.external_classes@.len() as int,
        );
        assert(!crate::spec_has_changes(diff, cfg));
    } else {
        if !(cfg.guest || diff.world.status is Synced) {
            assert(crate::world::spec_world_changed(diff, cfg));
        } else if exists|i: int|
            0 <= i < diff.resources@.len() && !spec_resource_converged(
                cfg,
                #[trigger] diff.resources@[i],
            ) {
            let i = choose|i: int|
                0 <= i < diff.resources@.len() && !spec_resource_converged(
                    cfg,
                    #[trigger] diff.resources@[i],
                );
            let r = diff.resources@[i];
            if r.kind is Namespace && !(r.status is Synced) {
                assert(r.status is Created);
                let li = choose|li: int|
                    0 <= li < diff.namespaces@.len() && #[trigger] diff.namespaces@[li]
                        == r.selector;
                let idx = spec_resource_index(diff, diff.namespaces@[li]);
                if idx != i {
                    assert(diff.resources@[idx].selector != diff.resources@[i].selector);
                }
                assert(spec_namespace_calls_upto(diff, li + 1).len() > 0);
                lemma_ns_len_monotonic(diff, li + 1, diff.namespaces@.len() as int);
            } else if !(r.kind is Namespace) && !cfg.spec_is_skipped(r.tag@) && !(r.status
                is Synced) {
                assert(spec_resource_calls(r).len() > 0 || spec_resource_artifact(r) is Some);
                if spec_resource_calls(r).len() > 0 {
                    assert(spec_kind_calls_upto(diff, cfg, i + 1).len() > 0);
                    lemma_kind_len_monotonic(diff, cfg, i + 1, rn);
                } else {
                    assert(r.kind is Library && r.status is Updated);
                    assert(false);
                }
            } else if !cfg.spec_is_skipped(r.tag@) && (exists|w: int|
                0 <= w < r.writers@.len() && (#[trigger] r.writers@[w]).state is LocalOnly) {
                let w = choose|w: int|
                    0 <= w < r.writers@.len() && (#[trigger] r.writers@[w]).state is LocalOnly;
                lemma_permission_grants(diff, cfg, i, w);
                assert(spec_count_call(
                    spec_permission_calls(diff, cfg),
                    Call::GrantWriter { resource: r.selector, grantee: r.writers@[w].grantee },
                ) == 1);
                if spec_permission_calls(diff, cfg).len() == 0 {
                    assert(spec_count_call(
                        spec_permission_calls(diff, cfg),
                        Call::GrantWriter {
                            resource: r.selector,
                            grantee: r.writers@[w].grantee,
                        },
                    ) == 0);
                }
            } else if !cfg.spec_is_skipped(r.tag@) && (exists|w: int|
                0 <= w < r.owners@.len() && (#[trigger] r.owners@[w]).state is LocalOnly) {
                let w = choose|w: int|
                    0 <= w < r.owners@.len() && (#[trigger] r.owners@[w]).state is LocalOnly;
                lemma_permission_grants(diff, cfg, i, w);
                assert(spec_count_call(
                    spec_permission_calls(diff, cfg),
                    Call::GrantOwner { resource: r.selector, grantee: r.owners@[w].grantee },
                ) == 1);
                if spec_permission_calls(diff, cfg).len() == 0 {
                    assert(spec_count_call(
                        spec_permission_calls(diff, cfg),
                        Call::GrantOwner { resource: r.selector, grantee: r.owners@[w].grantee },
                    ) == 0);
                }
            } else {
                assert(spec_init_selected(cfg, r));
                lemma_init_exactly_once(diff, cfg, i);
                if spec_init_order(diff, cfg).len() == 0 {
                    assert(spec_count_idx(spec_init_order(diff, cfg), i) == 0);
                }
            }
        } else if exists|j: int|
            0 <= j < diff.external_classes@.len() && (#[trigger] diff.external_classes@[j]).status
                is Created {
            let j = choose|j: int|
                0 <= j < diff.external_classes@.len() && (
                #[trigger] diff.external_classes@[j]).status is Created;
            assert(spec_external_artifacts_upto(diff, j + 1).len() > 0);
            lemma_external_arts_len_monotonic(diff, j + 1, diff.external_classes@.len() as int);
        } else {
            let j = choose|j: int|
                0 <= j < diff.external_contracts@.len() && (
                #[trigger] diff.external_contracts@[j]).status is Created;
            assert(spec_external_deploy_indices_upto(diff, j + 1).len() > 0);
            lemma_external_len_monotonic(diff, j + 1, diff.external_contracts@.len() as int);
        }
        assert(crate::spec_has_changes(diff, cfg));
    }
}

} // verus!
