use git_workspace::commands::{fetch, list, select};
use git_workspace::repository::{Repository, UpstreamPlan};
use git_workspace::text::join_path;

fn full(branch: Option<&str>, upstream: Option<&str>) -> Repository {
    Repository::new(
        "org/repo".to_string(),
        "git@host:org/repo.git".to_string(),
        branch.map(String::from),
        upstream.map(String::from),
    )
}

fn strings(v: &[&str]) -> Vec<String> {
    v.iter().map(|s| s.to_string()).collect()
}

#[test]
fn clone_runs_in_the_workspace_into_the_repository_path() {
    let plan = Repository::clone(&full(None, None), "/ws");
    assert_eq!(plan.program, "git");
    assert_eq!(plan.dir, "/ws");
    assert_eq!(
        plan.args,
        strings(&[
            "clone",
            "--recurse-submodules",
            "--progress",
            "git@host:org/repo.git",
            "/ws/org/repo"
        ])
    );
}

#[test]
fn pull_uses_upstream_only_with_a_branch() {
    let both = full(Some("main"), Some("git@host:up/repo.git")).pull("/ws");
    assert_eq!(both.args, strings(&["pull", "upstream", "main"]));
    assert_eq!(both.dir, "/ws/org/repo");
    assert_eq!(full(Some("main"), None).pull("/ws").args, strings(&["pull"]));
    assert_eq!(full(None, Some("u")).pull("/ws").args, strings(&["pull"]));
}

#[test]
fn command_result_trims_output_and_keeps_errors() {
    let repo = full(None, None);
    let ok = repo.command_result(true, b"  hello\n", b"ignored");
    assert!(ok.is_success());
    assert_eq!(ok.output, "hello");
    assert_eq!(ok.error, None);
    let failed = repo.command_result(false, b"out", b"fatal: bad\n");
    assert!(!failed.success);
    assert_eq!(failed.output, "");
    assert_eq!(failed.error.as_deref(), Some("fatal: bad"));
    let lossy = repo.command_result(true, &[0x66, 0xff, 0x6f], b"");
    assert_eq!(lossy.output, "f\u{FFFD}o");
}

#[test]
fn execute_cmd_runs_inside_the_clone() {
    let plan = full(None, None).execute_cmd("/ws", "echo", strings(&["hi"]));
    assert_eq!(plan.program, "echo");
    assert_eq!(plan.args, strings(&["hi"]));
    assert_eq!(plan.dir, "/ws/org/repo");
}

#[test]
fn upstream_plan_and_outcomes() {
    match full(None, None).set_upstream("/ws") {
        UpstreamPlan::Done(r) => {
            assert!(r.success);
            assert_eq!(r.output, "No upstream configured");
        }
        UpstreamPlan::Run { .. } => panic!("no upstream is configured"),
    }
    let repo = full(None, Some("git@host:up/repo.git"));
    match repo.set_upstream("/ws") {
        UpstreamPlan::Run { remove, add } => {
            assert_eq!(
                remove.args,
                strings(&["-C", "/ws/org/repo", "remote", "rm", "upstream"])
            );
            assert_eq!(
                add.args,
                strings(&[
                    "-C",
                    "/ws/org/repo",
                    "remote",
                    "add",
                    "upstream",
                    "git@host:up/repo.git"
                ])
            );
        }
        UpstreamPlan::Done(_) => panic!("an upstream is configured"),
    }
    let done = repo.upstream_result(true, b"").unwrap();
    assert_eq!(done.output, "Upstream configured successfully");
    let failed = repo.upstream_result(false, b" remote exists \n").unwrap();
    assert!(!failed.success);
    assert_eq!(
        failed.error.as_deref(),
        Some("Failed to set upstream: remote exists")
    );
    let err = repo.upstream_result(false, &[0xff, 0xfe]).unwrap_err();
    assert!(format!("{:?}", err).starts_with("CommandFailed("));
}

#[test]
fn switching_branches() {
    assert_eq!(full(None, None).switch_to_primary_branch(), None);
    assert_eq!(
        full(Some("main"), None).switch_to_primary_branch().as_deref(),
        Some("refs/heads/main")
    );
    let none = full(None, None).switch_result(true);
    assert!(none.success);
    assert_eq!(none.output, "No primary branch configured");
    let dirty = full(Some("main"), None).switch_result(true);
    assert!(!dirty.success);
    assert_eq!(
        dirty.error.as_deref(),
        Some("Repository is dirty, cannot switch to branch main")
    );
    let clean = full(Some("main"), None).switch_result(false);
    assert!(clean.success);
    assert_eq!(clean.output, "Switched to branch main");
}

#[test]
fn fetch_command_arguments() {
    let c = fetch();
    assert_eq!(c.program, "git");
    assert_eq!(
        c.args,
        strings(&[
            "fetch",
            "--all",
            "--prune",
            "--recurse-submodules=on-demand",
            "--progress"
        ])
    );
}

#[test]
fn listing_shows_present_repositories() {
    let repos = vec![
        Repository::new("a".into(), "u".into(), None, None),
        Repository::new("b".into(), "u".into(), None, None),
        Repository::new("c".into(), "u".into(), None, None),
    ];
    let resolved = vec![Some("/ws/a".to_string()), None, Some("/ws/c".to_string())];
    let short: Vec<String> = list(&repos, &resolved, false).into_iter().map(|l| l.repo).collect();
    assert_eq!(short, strings(&["a", "c"]));
    let long: Vec<String> = list(&repos, &resolved, true).into_iter().map(|l| l.repo).collect();
    assert_eq!(long, strings(&["/ws/a", "/ws/c"]));
    assert!(list(&repos, &vec![], true).is_empty());
}

#[test]
fn select_keeps_flagged_items_in_order() {
    assert_eq!(select(vec![1, 2, 3, 4], &vec![true, false, true]), vec![1, 3]);
    assert_eq!(select(Vec::<u8>::new(), &vec![true]), Vec::<u8>::new());
}

#[test]
fn text_helpers() {
    assert_eq!(join_path("/ws", "org/repo"), "/ws/org/repo");
    let repo = full(None, None);
    let spaced = "\u{3000} a b \t".as_bytes();
    assert_eq!(repo.command_result(true, spaced, b"").output, "a b");
    assert_eq!(repo.command_result(true, b"   ", b"").output, "");
}
