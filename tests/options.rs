use cargo_doc_upload::options::{
    is_pull_request, local_doc_dir, origin_url, plan, CiContext, CiVar, Options, Plan,
};
use cargo_doc_upload::policy::SkipReason;

fn flags() -> Options {
    Options {
        flag_version: false,
        flag_branch: vec![],
        flag_token: None,
        flag_message: None,
        flag_deploy: None,
        flag_path: None,
        flag_clobber_index: false,
        flag_target: None,
    }
}

fn ci(branch: &str, pr: &str) -> CiContext {
    CiContext {
        branch: Some(branch.to_string()),
        pull_request: Some(pr.to_string()),
        repo_slug: Some("owner/repo".to_string()),
        gh_token: None,
    }
}

#[test]
fn version_flag_wins() {
    let mut o = flags();
    o.flag_version = true;
    let c = CiContext { branch: None, pull_request: None, repo_slug: None, gh_token: None };
    assert!(matches!(plan(o, c), Plan::ShowVersion));
}

#[test]
fn feature_branch_skips() {
    assert!(matches!(plan(flags(), ci("feature-x", "false")), Plan::Skip(SkipReason::NotAllowedBranch)));
}

#[test]
fn pull_request_skips() {
    assert!(matches!(plan(flags(), ci("master", "42")), Plan::Skip(SkipReason::IsPullRequest)));
}

#[test]
fn missing_variables() {
    let c = CiContext { branch: None, pull_request: None, repo_slug: None, gh_token: None };
    assert!(matches!(plan(flags(), c), Plan::Missing(CiVar::Branch)));
    let c = CiContext { branch: Some("master".to_string()), pull_request: None, repo_slug: None, gh_token: None };
    assert!(matches!(plan(flags(), c), Plan::Missing(CiVar::PullRequest)));
    let c = CiContext {
        branch: Some("master".to_string()),
        pull_request: Some("false".to_string()),
        repo_slug: None,
        gh_token: None,
    };
    assert!(matches!(plan(flags(), c), Plan::Missing(CiVar::RepoSlug)));
}

#[test]
fn defaults_use_ssh_and_branch_path() {
    match plan(flags(), ci("master", "false")) {
        Plan::Publish(s) => {
            assert_eq!(s.message, "Automatic Travis documentation build");
            assert_eq!(s.origin, "git@github.com:owner/repo.git");
            assert!(s.ssh_fallback);
            assert_eq!(s.deploy_branch, "gh-pages");
            assert_eq!(s.path, "master");
            assert_eq!(s.local_doc_path, "target/doc");
            assert!(!s.clobber_index);
        }
        _ => panic!("expected a publish"),
    }
}

#[test]
fn flags_override_defaults() {
    let mut o = flags();
    o.flag_branch = vec!["release".to_string()];
    o.flag_token = Some("tok".to_string());
    o.flag_message = Some("docs".to_string());
    o.flag_deploy = Some("pages".to_string());
    o.flag_path = Some("latest".to_string());
    o.flag_clobber_index = true;
    o.flag_target = Some("x86_64-unknown-linux-gnu".to_string());
    let mut c = ci("release", "false");
    c.gh_token = Some("envtok".to_string());
    match plan(o, c) {
        Plan::Publish(s) => {
            assert_eq!(s.message, "docs");
            assert_eq!(s.origin, "https://tok@github.com/owner/repo.git");
            assert!(!s.ssh_fallback);
            assert_eq!(s.deploy_branch, "pages");
            assert_eq!(s.path, "latest");
            assert_eq!(s.local_doc_path, "target/x86_64-unknown-linux-gnu/doc");
            assert!(s.clobber_index);
        }
        _ => panic!("expected a publish"),
    }
}

#[test]
fn environment_token_used_without_flag() {
    let mut c = ci("master", "false");
    c.gh_token = Some("envtok".to_string());
    match plan(flags(), c) {
        Plan::Publish(s) => assert_eq!(s.origin, "https://envtok@github.com/owner/repo.git"),
        _ => panic!("expected a publish"),
    }
}

#[test]
fn helpers() {
    assert_eq!(origin_url(&None, &"a/b".to_string()), "git@github.com:a/b.git");
    assert_eq!(origin_url(&Some("t".to_string()), &"a/b".to_string()), "https://t@github.com/a/b.git");
    assert_eq!(local_doc_dir(&None), "target/doc");
    assert_eq!(local_doc_dir(&Some("arm".to_string())), "target/arm/doc");
    assert!(!is_pull_request(&"false".to_string()));
    assert!(is_pull_request(&"7".to_string()));
}
