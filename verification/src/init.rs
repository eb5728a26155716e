//! The contract initialization step: every eligible contract gets exactly
//! one initialization call, with arguments decoded from the configuration,
//! and an optional configured order is honored for the tags it lists.

use vstd::prelude::*;
use starknet_crypto::Felt;
use crate::calls::Call;
use crate::config::MigrationConfig;
use crate::diff::{ResourceEntry, WorldDiff};
use crate::error::MigrationError;
use crate::felt::{felt_from_hex, spec_felt_from_hex};

verus! {

/// Whether a resource entry must be initialized: contracts are always
/// initialized when newly created, and otherwise exactly when the remote
/// observation reports them as not yet initialized.
pub open spec fn spec_init_eligible(r: ResourceEntry) -> bool {
    r.kind is Contract && (r.status is Created || !r.remote_initialized)
}

/// Whether every configured argument item of the sequence decodes to a
/// field element.
pub open spec fn spec_items_decode(items: Seq<Seq<char>>) -> bool {
    forall|j: int| 0 <= j < items.len() ==> (#[trigger] spec_felt_from_hex(items[j])) is Some
}

/// The decoded argument list of the sequence of items.
pub open spec fn spec_decoded_items(items: Seq<Seq<char>>) -> Seq<Felt> {
    Seq::new(items.len(), |j: int| spec_felt_from_hex(items[j])->0)
}

/// Whether the arguments configured for `tag` decode; a tag with no entry
/// decodes trivially to the empty list.
pub open spec fn spec_tag_args_decode(cfg: MigrationConfig, tag: Seq<char>) -> bool {
    match cfg.spec_init_items_for(tag) {
        Some(items) => spec_items_decode(items),
        None => true,
    }
}

/// The decoded initialization arguments of `tag`.
pub open spec fn spec_init_args_of(cfg: MigrationConfig, tag: Seq<char>) -> Seq<Felt> {
    match cfg.spec_init_items_for(tag) {
        Some(items) => spec_decoded_items(items),
        None => Seq::empty(),
    }
}

/// Whether a resource entry gets an initialization call at all: eligible
/// and not skip-listed.
pub open spec fn spec_init_selected(cfg: MigrationConfig, r: ResourceEntry) -> bool {
    spec_init_eligible(r) && !cfg.spec_is_skipped(r.tag@)
}

/// Whether the arguments of every selected contract decode, so that the
/// step as a whole can be planned.
pub open spec fn spec_init_args_ok(diff: WorldDiff, cfg: MigrationConfig) -> bool {
    forall|i: int|
        0 <= i < diff.resources@.len() && spec_init_selected(
            cfg,
            #[trigger] diff.resources@[i],
        ) ==> spec_tag_args_decode(cfg, diff.resources@[i].tag@)
}

/// Resource indices of the unordered part of the step: selected contracts
/// whose tag is not on the order list, in diff order, among the first `n`
/// entries.
pub open spec fn spec_unordered_init_upto(diff: WorldDiff, cfg: MigrationConfig, n: int) -> Seq<
    int,
>
    decreases n,
{
    if n <= 0 {
        Seq::empty()
    } else {
        let r = diff.resources@[n - 1];
        spec_unordered_init_upto(diff, cfg, n - 1) + if spec_init_selected(cfg, r)
            && cfg.spec_order_position(r.tag@) is None {
            seq![n - 1]
        } else {
            Seq::empty()
        }
    }
}

/// Index of the resource entry carrying `tag`; meaningful when such an
/// entry exists, unique under well-formedness.
pub open spec fn spec_resource_index_by_tag(diff: WorldDiff, tag: Seq<char>) -> int {
    choose|k: int| 0 <= k < diff.resources@.len() && (#[trigger] diff.resources@[k]).tag@ == tag
}

/// Whether position `p` of the order list contributes a call: it is the
/// first occurrence of its tag there, and a selected contract carries that
/// tag.
pub open spec fn spec_order_slot_active(diff: WorldDiff, cfg: MigrationConfig, p: int) -> bool {
    &&& cfg.spec_order_position(cfg.order_inits@[p]@) == Some(p)
    &&& exists|k: int|
        0 <= k < diff.resources@.len() && (#[trigger] diff.resources@[k]).tag@
            == cfg.order_inits@[p]@ && spec_init_selected(cfg, diff.resources@[k])
}

/// Resource indices of the ordered part of the step, for the first `n`
/// positions of the order list.
pub open spec fn spec_ordered_init_upto(diff: WorldDiff, cfg: MigrationConfig, n: int) -> Seq<int>
    decreases n,
{
    if n <= 0 {
        Seq::empty()
    } else {
        spec_ordered_init_upto(diff, cfg, n - 1) + if spec_order_slot_active(diff, cfg, n - 1) {
            seq![spec_resource_index_by_tag(diff, cfg.order_inits@[n - 1]@)]
        } else {
            Seq::empty()
        }
    }
}

/// Resource indices of the whole step in call order: the unordered part
/// first, then the ordered part by ascending position.
pub open spec fn spec_init_order(diff: WorldDiff, cfg: MigrationConfig) -> Seq<int> {
    spec_unordered_init_upto(diff, cfg, diff.resources@.len() as int) + spec_ordered_init_upto(
        diff,
        cfg,
        cfg.order_inits@.len() as int,
    )
}

/// What a correct initialization call sequence is: one call per selected
/// contract, in the order of [`spec_init_order`], each carrying the
/// contract's selector and its decoded arguments.
pub open spec fn spec_init_calls_match(diff: WorldDiff, cfg: MigrationConfig, calls: Seq<
    Call,
>) -> bool {
    let order = spec_init_order(diff, cfg);
    &&& calls.len() == order.len()
    &&& forall|k: int|
        0 <= k < order.len() ==> ((#[trigger] calls[k]) matches Call::InitContract {
            selector,
            args,
        } && selector == diff.resources@[order[k]].selector && args@ == spec_init_args_of(
            cfg,
            diff.resources@[order[k]].tag@,
        ))
}

/// Decodes the configured argument items of one contract.
fn decode_items(items: &Vec<String>) -> (r: Result<Vec<Felt>, MigrationError>)
    ensures
        (r is Ok) == spec_items_decode(items.deep_view()),
        r matches Ok(v) ==> v@ == spec_decoded_items(items.deep_view()),
        r matches Err(e) ==> e is InitCallArgs,
{
    let mut v: Vec<Felt> = Vec::new();
    let mut j: usize = 0;
    while j < items.len()
        invariant
            0 <= j <= items@.len(),
            v@.len() == j,
            forall|k: int|
                0 <= k < j ==> (#[trigger] spec_felt_from_hex(items.deep_view()[k])) is Some
                    && v@[k] == spec_felt_from_hex(items.deep_view()[k])->0,
        decreases items@.len() - j,
    {
        proof {
            assert(items.deep_view()[j as int] == items@[j as int]@);
        }
        match felt_from_hex(&items[j]) {
            Some(f) => v.push(f),
            None => {
                return Err(MigrationError::InitCallArgs);
            },
        }
        j += 1;
    }
    proof {
        assert(v@ =~= spec_decoded_items(items.deep_view()));
    }
    Ok(v)
}

/// The initialization call of the resource entry at index `i`, when its
/// arguments decode.
fn init_call_for(diff: &WorldDiff, cfg: &MigrationConfig, i: usize) -> (r: Result<
    Call,
    MigrationError,
>)
    requires
        0 <= i < diff.resources@.len(),
    ensures
        (r is Ok) == spec_tag_args_decode(*cfg, diff.resources@[i as int].tag@),
        r matches Ok(c) ==> c matches Call::InitContract { selector, args } && selector
            == diff.resources@[i as int].selector && args@ == spec_init_args_of(
            *cfg,
            diff.resources@[i as int].tag@,
        ),
        r matches Err(e) ==> e is InitCallArgs,
{
    let r = &diff.resources[i];
    let args = match cfg.init_args_for(&r.tag) {
        Some(items) => {
            match decode_items(items) {
                Ok(v) => v,
                Err(e) => {
                    return Err(e);
                },
            }
        },
        None => Vec::new(),
    };
    Ok(Call::InitContract { selector: r.selector, args })
}

/// Plans the contract initialization step.
///
/// Succeeds exactly when the configured arguments of every selected
/// contract decode, and then returns one call per selected contract: the
/// contracts whose tag the order list names come last, by ascending list
/// position, all others first, in diff order.
#[verifier::rlimit(100)]
#[verifier::spinoff_prover]
pub fn plan_inits(diff: &WorldDiff, cfg: &MigrationConfig) -> (r: Result<Vec<Call>, MigrationError>)
    requires
        diff.wf(),
    ensures
        (r is Ok) == spec_init_args_ok(*diff, *cfg),
        r matches Ok(calls) ==> spec_init_calls_match(*diff, *cfg, calls@),
        r matches Err(e) ==> e is InitCallArgs,
{
    let mut calls: Vec<Call> = Vec::new();
    let mut i: usize = 0;
    while i < diff.resources.len()
        invariant
            diff.wf(),
            0 <= i <= diff.resources@.len(),
            ({
                let order = spec_unordered_init_upto(*diff, *cfg, i as int);
                &&& calls@.len() == order.len()
                &&& forall|k: int|
                    0 <= k < order.len() ==> ((#[trigger] calls@[k]) matches Call::InitContract {
                        selector,
                        args,
                    } && selector == diff.resources@[order[k]].selector && args@
                        == spec_init_args_of(*cfg, diff.resources@[order[k]].tag@))
            }),
            forall|k: int|
                0 <= k < i && spec_init_selected(*cfg, #[trigger] diff.resources@[k])
                    ==> spec_tag_args_decode(*cfg, diff.resources@[k].tag@),
        decreases diff.resources@.len() - i,
    {
        let r = &diff.resources[i];
        let is_contract = matches!(r.kind, crate::diff::ResourceKind::Contract);
        let eligible = is_contract && (matches!(r.status, crate::diff::DiffStatus::Created)
            || !r.remote_initialized);
        if eligible && !cfg.is_skipped(&r.tag) {
            let call = match init_call_for(diff, cfg, i) {
                Ok(c) => c,
                Err(e) => {
                    proof {
                        assert(spec_init_selected(*cfg, diff.resources@[i as int])
                            && !spec_tag_args_decode(*cfg, diff.resources@[i as int].tag@));
                        assert(!spec_init_args_ok(*diff, *cfg));
                    }
                    return Err(e);
                },
            };
            if cfg.order_position(&r.tag).is_none() {
                calls.push(call);
            }
        }
        proof {
            assert(spec_unordered_init_upto(*diff, *cfg, i as int + 1).len()
                == spec_unordered_init_upto(*diff, *cfg, i as int).len() + (
            if spec_init_selected(*cfg, diff.resources@[i as int]) && cfg.spec_order_position(
                diff.resources@[i as int].tag@,
            ) is None {
                1int
            } else {
                0int
            }));
        }
        i += 1;
    }
    let ghost unordered = spec_unordered_init_upto(*diff, *cfg, diff.resources@.len() as int);
    proof {
        assert(unordered + spec_ordered_init_upto(*diff, *cfg, 0) =~= unordered);
    }
    let mut p: usize = 0;
    while p < cfg.order_inits.len()
        invariant
            diff.wf(),
            0 <= p <= cfg.order_inits@.len(),
            spec_init_args_ok(*diff, *cfg),
            unordered == spec_unordered_init_upto(*diff, *cfg, diff.resources@.len() as int),
            ({
                let order = unordered + spec_ordered_init_upto(*diff, *cfg, p as int);
                &&& calls@.len() == order.len()
                &&& forall|k: int|
                    0 <= k < order.len() ==> ((#[trigger] calls@[k]) matches Call::InitContract {
                        selector,
                        args,
                    } && selector == diff.resources@[order[k]].selector && args@
                        == spec_init_args_of(*cfg, diff.resources@[order[k]].tag@))
            }),
        decreases cfg.order_inits@.len() - p,
    {
        match ordered_call_at(diff, cfg, p) {
            Some(call) => calls.push(call),
            None => {},
        }
        proof {
            assert(unordered + spec_ordered_init_upto(*diff, *cfg, p as int + 1) =~= (unordered
                + spec_ordered_init_upto(*diff, *cfg, p as int)) + (
            if spec_order_slot_active(*diff, *cfg, p as int) {
                seq![spec_resource_index_by_tag(*diff, cfg.order_inits@[p as int]@)]
            } else {
                Seq::empty()
            }));
        }
        p += 1;
    }
    proof {
        assert(spec_init_order(*diff, *cfg) == unordered + spec_ordered_init_upto(
            *diff,
            *cfg,
            cfg.order_inits@.len() as int,
        ));
        assert(spec_init_calls_match(*diff, *cfg, calls@));
    }
    Ok(calls)
}

/// The initialization call position `p` of the order list contributes, if
/// any: `p` must be the first occurrence of its tag, and a selected
/// contract must carry that tag.
fn ordered_call_at(diff: &WorldDiff, cfg: &MigrationConfig, p: usize) -> (r: Option<Call>)
    requires
        diff.wf(),
        spec_init_args_ok(*diff, *cfg),
        0 <= p < cfg.order_inits@.len(),
    ensures
        (r is Some) == spec_order_slot_active(*diff, *cfg, p as int),
        r matches Some(c) ==> ({
            let idx = spec_resource_index_by_tag(*diff, cfg.order_inits@[p as int]@);
            c matches Call::InitContract { selector, args } && selector
                == diff.resources@[idx].selector && args@ == spec_init_args_of(
                *cfg,
                diff.resources@[idx].tag@,
            )
        }),
{
    let tag = &cfg.order_inits[p];
    let first = match cfg.order_position(tag) {
        Some(q) => q == p,
        None => false,
    };
    if !first {
        proof {
            assert(!spec_order_slot_active(*diff, *cfg, p as int));
        }
        return None;
    }
    match find_resource_by_tag(diff, tag) {
        Some((k, r)) => {
            let is_contract = matches!(r.kind, crate::diff::ResourceKind::Contract);
            let eligible = is_contract && (matches!(r.status, crate::diff::DiffStatus::Created)
                || !r.remote_initialized);
            if eligible && !cfg.is_skipped(&r.tag) {
                match init_call_for(diff, cfg, k) {
                    Ok(c) => {
                        proof {
                            assert(spec_order_slot_active(*diff, *cfg, p as int));
                            assert(spec_resource_index_by_tag(*diff, cfg.order_inits@[p as int]@)
                                == k as int);
                        }
                        Some(c)
                    },
                    Err(_) => {
                        proof {
                            assert(spec_init_selected(*cfg, diff.resources@[k as int]));
                            assert(false);
                        }
                        None
                    },
                }
            } else {
                proof {
                    assert(forall|k2: int|
                        0 <= k2 < diff.resources@.len() && (#[trigger] diff.resources@[k2]).tag@
                            == tag@ ==> k2 == k as int);
                    assert(!spec_order_slot_active(*diff, *cfg, p as int));
                }
                None
            }
        },
        None => {
            proof {
                assert(!spec_order_slot_active(*diff, *cfg, p as int));
            }
            None
        },
    }
}

/// Finds the resource entry carrying `tag`, with its index.
fn find_resource_by_tag<'a>(diff: &'a WorldDiff, tag: &String) -> (r: Option<
    (usize, &'a ResourceEntry),
>)
    requires
        diff.wf(),
    ensures
        (r is Some) == exists|k: int|
            0 <= k < diff.resources@.len() && (#[trigger] diff.resources@[k]).tag@ == tag@,
        r matches Some(p) ==> 0 <= p.0 < diff.resources@.len() && *p.1 == diff.resources@[
            p.0 as int
        ] && p.1.tag@ == tag@ && spec_resource_index_by_tag(*diff, tag@) == p.0 as int,
{
    let mut i: usize = 0;
    while i < diff.resources.len()
        invariant
            diff.wf(),
            0 <= i <= diff.resources@.len(),
            forall|k: int| 0 <= k < i ==> (#[trigger] diff.resources@[k]).tag@ != tag@,
        decreases diff.resources@.len() - i,
    {
        if diff.resources[i].tag == *tag {
            proof {
                let w = i as int;
                let c = spec_resource_index_by_tag(*diff, tag@);
                assert(0 <= c < diff.resources@.len() && diff.resources@[c].tag@ == tag@);
                if c < w {
                    assert(diff.resources@[c].tag@ != tag@);
                }
                if w < c {
                    assert(diff.resources@[w].tag@ != diff.resources@[c].tag@);
                }
            }
            return Some((i, &diff.resources[i]));
        }
        i += 1;
    }
    None
}

} // verus!
