use sozo_migrate::calls::ClassArtifact;
use sozo_migrate::declare::{fold_declare_outcomes, shard_artifacts, str_contains, DeclareOutcome};
use sozo_migrate::error::MigrationError;

fn artifact(label: &str, casm: u64) -> ClassArtifact {
    ClassArtifact { label: label.to_string(), casm_class_hash: casm, class_hash: casm + 1 }
}

/// Artifacts are dealt round-robin over the publishers.
#[test]
fn round_robin_sharding() {
    let arts = vec![
        artifact("a", 0),
        artifact("b", 1),
        artifact("c", 2),
        artifact("d", 3),
        artifact("e", 4),
    ];
    let shards = shard_artifacts(arts, 2);
    assert_eq!(shards.len(), 2);
    let first: Vec<u64> = shards[0].iter().map(|a| a.casm_class_hash).collect();
    let second: Vec<u64> = shards[1].iter().map(|a| a.casm_class_hash).collect();
    assert_eq!(first, vec![0, 2, 4]);
    assert_eq!(second, vec![1, 3]);
}

/// One publisher receives everything, in order.
#[test]
fn single_shard_keeps_order() {
    let arts = vec![artifact("a", 0), artifact("b", 1)];
    let shards = shard_artifacts(arts, 1);
    assert_eq!(shards.len(), 1);
    assert_eq!(shards[0].len(), 2);
    assert_eq!(shards[0][0].label, "a");
    assert_eq!(shards[0][1].label, "b");
}

/// A failure reporting an already-published class is tolerated: the step
/// still succeeds.
#[test]
fn already_declared_tolerated() {
    let outcomes = vec![
        DeclareOutcome::Success,
        DeclareOutcome::Failure("Transaction reverted: Class already declared (0x1)".to_string()),
    ];
    assert!(fold_declare_outcomes(&outcomes).is_ok());
}

/// Any other failure fails the whole step with its message.
#[test]
fn other_failure_fatal() {
    let outcomes = vec![
        DeclareOutcome::Success,
        DeclareOutcome::Failure("insufficient balance".to_string()),
        DeclareOutcome::Failure("Class already declared".to_string()),
    ];
    match fold_declare_outcomes(&outcomes) {
        Err(MigrationError::DeclareClassError(msg)) => assert_eq!(msg, "insufficient balance"),
        _ => panic!("expected the publication failure"),
    }
}

/// No outcomes is success.
#[test]
fn no_outcomes_success() {
    assert!(fold_declare_outcomes(&Vec::new()).is_ok());
}

#[test]
fn substring_search() {
    assert!(str_contains("Class already declared", "Class already declared"));
    assert!(str_contains("x Class already declared y", "Class already declared"));
    assert!(!str_contains("Class already", "Class already declared"));
    assert!(str_contains("anything", ""));
    assert!(!str_contains("", "a"));
    assert!(!str_contains("abc", "abd"));
}
