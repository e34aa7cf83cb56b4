use git_workspace::commands::{lock, SourceOutcome};
use git_workspace::lockfile::{sorted_unique, Lockfile};
use git_workspace::repository::Repository;

fn repo(path: &str, url: &str) -> Repository {
    Repository::new(path.to_string(), url.to_string(), None, None)
}

fn ok(provider: &str, repos: Vec<Repository>) -> SourceOutcome {
    SourceOutcome {
        provider: provider.to_string(),
        fetched: Ok(repos),
    }
}

fn failed(provider: &str, message: &str) -> SourceOutcome {
    SourceOutcome {
        provider: provider.to_string(),
        fetched: Err(message.to_string()),
    }
}

fn paths(repos: &[Repository]) -> Vec<(String, String)> {
    repos
        .iter()
        .map(|r| (r.name().clone(), r.url().clone()))
        .collect()
}

#[test]
fn lock_merges_sorts_and_dedups_all_sources() {
    let sources = vec![
        ok("github", vec![repo("org/b", "ub"), repo("org/a", "ua")]),
        ok("gitlab", vec![repo("org/a", "ua"), repo("group/c", "uc")]),
    ];
    let outcome = lock(&sources);
    assert_eq!(
        paths(&outcome.repositories),
        vec![
            ("group/c".to_string(), "uc".to_string()),
            ("org/a".to_string(), "ua".to_string()),
            ("org/b".to_string(), "ub".to_string()),
        ]
    );
    assert_eq!(outcome.results.len(), 2);
    assert!(outcome.results.iter().all(|r| r.is_success()));
    assert_eq!(outcome.results[1].repos.as_ref().unwrap().len(), 2);
}

#[test]
fn lock_is_idempotent_and_ignores_source_order() {
    let first = vec![
        ok("github", vec![repo("x", "1"), repo("a", "2")]),
        ok("gitlab", vec![repo("m", "3")]),
    ];
    let second = vec![
        ok("gitlab", vec![repo("m", "3"), repo("x", "1")]),
        ok("github", vec![repo("a", "2")]),
    ];
    let once = lock(&first).repositories;
    let again = lock(&first).repositories;
    let reordered = lock(&second).repositories;
    assert_eq!(paths(&once), paths(&again));
    assert_eq!(paths(&once), paths(&reordered));
    assert_eq!(paths(&sorted_unique(&once)), paths(&once));
}

#[test]
fn failed_source_is_reported_and_others_continue() {
    let sources = vec![
        failed("gitea", "connection refused"),
        ok("github", vec![repo("org/a", "ua")]),
    ];
    let outcome = lock(&sources);
    assert_eq!(paths(&outcome.repositories), vec![("org/a".to_string(), "ua".to_string())]);
    let report = &outcome.results[0];
    assert_eq!(report.provider, "gitea");
    assert!(!report.is_success());
    assert!(report.repos.is_none());
    assert_eq!(report.error.as_deref(), Some("connection refused"));
    assert!(outcome.results[1].is_success());
    assert_eq!(outcome.results[1].error, None);
}

#[test]
fn all_sources_failing_gives_an_empty_lockfile() {
    let sources = vec![failed("github", "401"), failed("gitlab", "timeout")];
    let outcome = lock(&sources);
    assert!(outcome.repositories.is_empty());
    assert_eq!(outcome.results.len(), 2);
    assert!(lock(&vec![]).repositories.is_empty());
}

#[test]
fn same_path_with_different_urls_stays_two_entries() {
    let sources = vec![ok("github", vec![repo("org/a", "u2"), repo("org/a", "u1")])];
    let outcome = lock(&sources);
    assert_eq!(
        paths(&outcome.repositories),
        vec![
            ("org/a".to_string(), "u1".to_string()),
            ("org/a".to_string(), "u2".to_string()),
        ]
    );
}

#[test]
fn sorted_unique_keeps_entries_that_differ_in_branch() {
    let a = Repository::new("p".into(), "u".into(), Some("main".into()), None);
    let b = Repository::new("p".into(), "u".into(), None, None);
    let c = Repository::new("p".into(), "u".into(), Some("main".into()), None);
    let out = sorted_unique(&vec![a, b, c]);
    assert_eq!(out.len(), 2);
    assert_eq!(out[0].branch, None);
    assert_eq!(out[1].branch.as_deref(), Some("main"));
    assert!(sorted_unique(&vec![]).is_empty());
}

#[test]
fn lockfile_keeps_its_path() {
    let l = Lockfile::new("/w/workspace-lock.toml".to_string());
    assert_eq!(l.path(), "/w/workspace-lock.toml");
}
