//! Publication of class artifacts across several signing identities.
//!
//! Artifacts are dealt round-robin over the available identities so that
//! their nonce sequences never collide, the shards run concurrently at the
//! call site, and the collected outcomes are folded tolerating the one
//! expected conflict: a class that was already published, by an interrupted
//! earlier run or by a sibling shard, is success, not failure.

use vstd::prelude::*;
use crate::calls::ClassArtifact;
use crate::error::MigrationError;

verus! {

/// Number of artifacts that shard `k` of `n` receives when `total` are
/// dealt round-robin: the count of indices below `total` congruent to `k`.
pub open spec fn spec_shard_len(total: int, n: int, k: int) -> int {
    if total % n > k {
        total / n + 1
    } else {
        total / n
    }
}

/// What a correct round-robin deal is: `n` shards, shard `k` holding, in
/// order, exactly the artifacts whose index is congruent to `k` modulo `n`.
pub open spec fn spec_sharded(arts: Seq<ClassArtifact>, n: int, shards: Seq<
    Vec<ClassArtifact>,
>) -> bool {
    &&& shards.len() == n
    &&& forall|k: int|
        0 <= k < n ==> (#[trigger] shards[k])@.len() == spec_shard_len(arts.len() as int, n, k)
    &&& forall|k: int, j: int|
        0 <= k < n && 0 <= j < shards[k]@.len() ==> #[trigger] shards[k]@[j] == arts[j * n + k]
}

/// Deals the artifacts round-robin over `n` publishers: artifact `m` goes
/// to shard `m % n`, keeping its relative order.
pub fn shard_artifacts(arts: Vec<ClassArtifact>, n: usize) -> (shards: Vec<Vec<ClassArtifact>>)
    requires
        1 <= n,
    ensures
        spec_sharded(arts@, n as int, shards@),
{
    let ghost all = arts@;
    let mut shards: Vec<Vec<ClassArtifact>> = Vec::new();
    let mut k: usize = 0;
    while k < n
        invariant
            0 <= k <= n,
            shards@.len() == k,
            forall|q: int| 0 <= q < k ==> (#[trigger] shards@[q])@.len() == 0,
        decreases n - k,
    {
        shards.push(Vec::new());
        k += 1;
    }
    let mut rest = arts;
    let total = rest.len();
    let mut m: usize = 0;
    while rest.len() > 0
        invariant
            1 <= n,
            shards@.len() == n,
            all.len() == total,
            m + rest@.len() == all.len(),
            rest@ == all.subrange(m as int, all.len() as int),
            forall|q: int, j: int|
                0 <= q < n && 0 <= j < (#[trigger] shards@[q])@.len() ==> #[trigger] shards@[q]@[j]
                    == all[j * (n as int) + q],
            forall|q: int|
                0 <= q < n ==> (#[trigger] shards@[q])@.len() == spec_shard_len(
                    m as int,
                    n as int,
                    q,
                ),
        decreases rest@.len(),
    {
        let a = rest.remove(0);
        let q = m % n;
        let mut shard = shards.remove(q);
        let ghost old_len = shard@.len();
        proof {
            assert(a == all[m as int]);
            assert(old_len == spec_shard_len(m as int, n as int, q as int));
            assert(old_len * (n as int) + q == m as int) by (nonlinear_arith)
                requires
                    old_len == (m as int) / (n as int),
                    q == (m as int) % (n as int),
                    n >= 1,
                    m >= 0,
            ;
        }
        shard.push(a);
        shards.insert(q, shard);
        proof {
            assert forall|q2: int|
                0 <= q2 < n implies (#[trigger] shards@[q2])@.len() == spec_shard_len(
                m as int + 1,
                n as int,
                q2,
            ) by {
                assert((m as int + 1) % (n as int) == if q as int + 1 == n {
                    0int
                } else {
                    q as int + 1
                } && (m as int + 1) / (n as int) == if q as int + 1 == n {
                    (m as int) / (n as int) + 1
                } else {
                    (m as int) / (n as int)
                }) by (nonlinear_arith)
                    requires
                        q == (m as int) % (n as int),
                        n >= 1,
                        m >= 0,
                ;
            }
            assert forall|q2: int, j: int|
                0 <= q2 < n && 0 <= j < (#[trigger] shards@[q2])@.len() implies #[trigger] shards@[q2]@[j]
                == all[j * (n as int) + q2] by {
                if q2 == q as int && j == old_len {
                    assert(shards@[q2]@[j] == all[m as int]);
                }
            }
        }
        m += 1;
    }
    proof {
        assert(rest@.len() == 0 && m == all.len());
    }
    shards
}

/// Whether `needle` occurs contiguously in `hay`.
pub open spec fn spec_contains_seq(hay: Seq<char>, needle: Seq<char>) -> bool {
    exists|i: int|
        0 <= i <= hay.len() - needle.len() && #[trigger] hay.subrange(i, i + needle.len() as int)
            == needle
}

/// Whether `needle` occurs in `hay` starting at `i`.
fn matches_at(hay: &str, needle: &str, i: usize, hay_len: usize, needle_len: usize) -> (r: bool)
    requires
        hay_len == hay@.len(),
        needle_len == needle@.len(),
        0 <= i,
        i + needle_len <= hay_len,
    ensures
        r == (hay@.subrange(i as int, i as int + needle@.len() as int) == needle@),
{
    let mut j: usize = 0;
    while j < needle_len
        invariant
            hay_len == hay@.len(),
            needle_len == needle@.len(),
            0 <= j <= needle_len,
            i + needle_len <= hay_len,
            forall|t: int| 0 <= t < j ==> hay@[i + t] == needle@[t],
        decreases needle_len - j,
    {
        if hay.get_char(i + j) != needle.get_char(j) {
            proof {
                assert(hay@.subrange(i as int, i as int + needle@.len() as int)[j as int]
                    != needle@[j as int]);
            }
            return false;
        }
        j += 1;
    }
    proof {
        assert(hay@.subrange(i as int, i as int + needle@.len() as int) =~= needle@);
    }
    true
}

/// Whether `needle` occurs contiguously in `hay`.
pub fn str_contains(hay: &str, needle: &str) -> (r: bool)
    ensures
        r == spec_contains_seq(hay@, needle@),
{
    let hay_len = hay.unicode_len();
    let needle_len = needle.unicode_len();
    if needle_len > hay_len {
        return false;
    }
    if needle_len == 0 {
        proof {
            assert(hay@.subrange(0, 0 + needle@.len() as int) =~= needle@);
        }
        return true;
    }
    let mut i: usize = 0;
    while i <= hay_len - needle_len
        invariant
            hay_len == hay@.len(),
            needle_len == needle@.len(),
            1 <= needle_len <= hay_len,
            0 <= i <= hay_len - needle_len + 1,
            forall|t: int|
                0 <= t < i ==> #[trigger] hay@.subrange(t, t + needle@.len() as int) != needle@,
        decreases hay_len - needle_len - i + 1,
    {
        if matches_at(hay, needle, i, hay_len, needle_len) {
            return true;
        }
        i += 1;
    }
    false
}

/// The outcome one publication shard reports once it has finished.
#[derive(Debug)]
pub enum DeclareOutcome {
    /// Every artifact of the shard was published.
    Success,
    /// The shard failed with this message.
    Failure(String),
}

/// The recognizable message of the one tolerated failure: the class was
/// already published by an earlier run or a sibling shard.
pub open spec fn spec_already_declared(msg: Seq<char>) -> bool {
    spec_contains_seq(msg, "Class already declared"@)
}

/// Whether a collection of shard outcomes amounts to success: every
/// failure, if any, reports an already-published class.
pub open spec fn spec_outcomes_ok(outcomes: Seq<DeclareOutcome>) -> bool {
    forall|i: int|
        0 <= i < outcomes.len() ==> ((#[trigger] outcomes[i]) matches DeclareOutcome::Failure(m)
            ==> spec_already_declared(m@))
}

/// Folds the outcomes of all publication shards, once all have finished:
/// publishing a content hash that is already published is success, any
/// other failure fails the whole step with its message.
pub fn fold_declare_outcomes(outcomes: &Vec<DeclareOutcome>) -> (r: Result<(), MigrationError>)
    ensures
        (r is Ok) == spec_outcomes_ok(outcomes@),
        r matches Err(e) ==> (e matches MigrationError::DeclareClassError(m)
            && !spec_already_declared(m@) && exists|i: int|
            0 <= i < outcomes@.len() && ((#[trigger] outcomes@[i]) matches DeclareOutcome::Failure(
                m2,
            ) && m2@ == m@)),
{
    let mut i: usize = 0;
    while i < outcomes.len()
        invariant
            0 <= i <= outcomes@.len(),
            forall|t: int|
                0 <= t < i ==> ((#[trigger] outcomes@[t]) matches DeclareOutcome::Failure(m)
                    ==> spec_already_declared(m@)),
        decreases outcomes@.len() - i,
    {
        match &outcomes[i] {
            DeclareOutcome::Success => {},
            DeclareOutcome::Failure(msg) => {
                if !str_contains(msg.as_str(), "Class already declared") {
                    proof {
                        assert((outcomes@[i as int] matches DeclareOutcome::Failure(m2) && m2@
                            == msg@) && !spec_already_declared(msg@));
                        assert(!spec_outcomes_ok(outcomes@));
                    }
                    return Err(MigrationError::DeclareClassError(msg.clone()));
                }
            },
        }
        i += 1;
    }
    Ok(())
}

} // verus!
