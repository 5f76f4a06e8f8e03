use cargo_doc_upload::policy::{evaluate, Decision, SkipReason};

fn names(v: &[&str]) -> Vec<String> {
    v.iter().map(|s| s.to_string()).collect()
}

#[test]
fn feature_branch_is_not_allowed_by_default_list() {
    let d = evaluate(&names(&["master"]), &"feature-x".to_string(), false);
    assert_eq!(d, Decision::Skip(SkipReason::NotAllowedBranch));
}

#[test]
fn empty_allowlist_means_master() {
    assert_eq!(evaluate(&names(&[]), &"master".to_string(), false), Decision::Proceed);
    assert_eq!(
        evaluate(&names(&[]), &"develop".to_string(), false),
        Decision::Skip(SkipReason::NotAllowedBranch)
    );
}

#[test]
fn pull_request_on_allowed_branch_is_skipped() {
    let d = evaluate(&names(&["master", "release"]), &"release".to_string(), true);
    assert_eq!(d, Decision::Skip(SkipReason::IsPullRequest));
}

#[test]
fn branch_check_comes_before_pull_request_check() {
    let d = evaluate(&names(&["master"]), &"feature-x".to_string(), true);
    assert_eq!(d, Decision::Skip(SkipReason::NotAllowedBranch));
}

#[test]
fn listed_branch_proceeds() {
    let d = evaluate(&names(&["master", "release"]), &"release".to_string(), false);
    assert_eq!(d, Decision::Proceed);
}

#[test]
fn empty_branch_is_not_allowed() {
    let d = evaluate(&names(&[""]), &"".to_string(), false);
    assert_eq!(d, Decision::Skip(SkipReason::NotAllowedBranch));
}
