use node_modules_remover::rules::{
    decide, elapsed_days, is_target_name, some_is_target, AccessStatus, Action, DEFAULT_MIN_AGE,
};

const DAY_SECS: u64 = 24 * 3600;

fn names(v: &[&str]) -> Vec<String> {
    v.iter().map(|s| s.to_string()).collect()
}

#[test]
fn stale_top_level_target_is_deleted() {
    // root/node_modules, last accessed 15 days ago, threshold 10.
    let anc = names(&["root"]);
    let a = decide("node_modules", &anc, AccessStatus::ElapsedSecs(15 * DAY_SECS), 10);
    assert_eq!(a, Action::Delete);
}

#[test]
fn fresh_target_is_retained() {
    // root/node_modules, last accessed 5 days ago, threshold 10.
    let anc = names(&["root"]);
    let a = decide("node_modules", &anc, AccessStatus::ElapsedSecs(5 * DAY_SECS), 10);
    assert_eq!(a, Action::Skip);
}

#[test]
fn nested_target_is_never_evaluated_alone() {
    // root/a/node_modules/node_modules: the outer one is stale and deleted,
    // the inner one is skipped however stale it is.
    let outer_anc = names(&["root", "a"]);
    let outer = decide(
        "node_modules",
        &outer_anc,
        AccessStatus::ElapsedSecs(20 * DAY_SECS),
        10,
    );
    assert_eq!(outer, Action::Delete);

    let inner_anc = names(&["root", "a", "node_modules"]);
    let inner = decide(
        "node_modules",
        &inner_anc,
        AccessStatus::ElapsedSecs(20 * DAY_SECS),
        10,
    );
    assert_eq!(inner, Action::Skip);
}

#[test]
fn age_equal_to_threshold_is_retained() {
    let anc = names(&["root"]);
    let a = decide("node_modules", &anc, AccessStatus::ElapsedSecs(10 * DAY_SECS), 10);
    assert_eq!(a, Action::Skip);
    let b = decide("node_modules", &anc, AccessStatus::ElapsedSecs(11 * DAY_SECS), 10);
    assert_eq!(b, Action::Delete);
}

#[test]
fn other_names_are_never_deleted() {
    let anc = names(&["root"]);
    for name in ["src", "Node_Modules", "NODE_MODULES", "node_modules2", "node_module", ""] {
        let a = decide(name, &anc, AccessStatus::ElapsedSecs(100 * DAY_SECS), 10);
        assert_eq!(a, Action::Skip);
    }
}

#[test]
fn metadata_error_is_fatal_for_any_entry() {
    let anc = names(&["root"]);
    assert_eq!(
        decide("src", &anc, AccessStatus::MetadataError, 10),
        Action::FatalMetadata
    );
    assert_eq!(
        decide("node_modules", &anc, AccessStatus::MetadataError, 10),
        Action::FatalMetadata
    );
}

#[test]
fn unsupported_access_time_is_only_reported() {
    let anc = names(&["root"]);
    assert_eq!(
        decide("node_modules", &anc, AccessStatus::Unsupported, 10),
        Action::ReportUnsupported
    );
    assert_eq!(
        decide("src", &anc, AccessStatus::Unsupported, 10),
        Action::ReportUnsupported
    );
}

#[test]
fn elapsed_error_is_fatal_only_for_targets() {
    let anc = names(&["root"]);
    assert_eq!(
        decide("node_modules", &anc, AccessStatus::ElapsedError, 10),
        Action::FatalElapsed
    );
    assert_eq!(decide("src", &anc, AccessStatus::ElapsedError, 10), Action::Skip);
}

#[test]
fn target_name_is_exact_and_case_sensitive() {
    assert!(is_target_name("node_modules"));
    assert!(!is_target_name("Node_modules"));
    assert!(!is_target_name("node_modules/"));
    assert!(!is_target_name("node_module"));
    assert!(!is_target_name("node_moduless"));
    assert!(!is_target_name(""));
}

#[test]
fn ancestor_scan_finds_target_anywhere() {
    assert!(!some_is_target(&names(&[])));
    assert!(!some_is_target(&names(&["root", "a", "b"])));
    assert!(some_is_target(&names(&["node_modules"])));
    assert!(some_is_target(&names(&["root", "node_modules", "b"])));
    assert!(some_is_target(&names(&["root", "a", "node_modules"])));
    assert!(!some_is_target(&names(&["root", "NODE_MODULES", "b"])));
}

#[test]
fn elapsed_seconds_become_whole_days() {
    assert_eq!(elapsed_days(0), 0);
    assert_eq!(elapsed_days(DAY_SECS - 1), 0);
    assert_eq!(elapsed_days(DAY_SECS), 1);
    assert_eq!(elapsed_days(15 * DAY_SECS + 7), 15);
}

#[test]
fn default_threshold_is_ten() {
    assert_eq!(DEFAULT_MIN_AGE, 10);
}
