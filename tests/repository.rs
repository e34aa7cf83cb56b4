use git_workspace::repository::{compare_repo, compare_str, present, Repository};
use std::cmp::Ordering;
use std::path::{Path, PathBuf};
use tempfile::TempDir;

/// Whether the clone of `repo` is there, as the command checks it.
fn is_present(repo: &Repository, root: &str) -> bool {
    present(
        repo.get_path(root)
            .ok()
            .map(|p| Path::new(&p).join(".git").is_dir()),
    )
}

/// Creates the directory `name` in `parent`, and keeps it.
fn mkdir(parent: &Path, name: &str) -> PathBuf {
    tempfile::Builder::new()
        .prefix(name)
        .rand_bytes(0)
        .tempdir_in(parent)
        .unwrap()
        .keep()
}

/// Creates each missing directory of `rel` below `root`.
fn mkdirs(root: &Path, rel: &[&str]) -> PathBuf {
    let mut p = root.to_path_buf();
    for part in rel {
        let next = p.join(part);
        p = if next.is_dir() { next } else { mkdir(&p, part) };
    }
    p
}

fn repo(path: &str, url: &str) -> Repository {
    Repository::new(path.to_string(), url.to_string(), None, None)
}

#[test]
fn test_repository_new() {
    let repo = Repository::new(
        "test/repo".to_string(),
        "git@github.com:user/repo.git".to_string(),
        Some("main".to_string()),
        Some("git@github.com:upstream/repo.git".to_string()),
    );

    assert_eq!(repo.name(), "test/repo");
    assert_eq!(repo.url(), "git@github.com:user/repo.git");
    assert_eq!(repo.branch.as_deref(), Some("main"));
    assert_eq!(
        repo.upstream.as_deref(),
        Some("git@github.com:upstream/repo.git")
    );
}

#[test]
fn test_repository_exists() {
    let temp = TempDir::new().unwrap();
    let root = temp.path().to_str().unwrap();
    let repo = Repository::new(
        "test/repo".to_string(),
        "git@github.com:user/repo.git".to_string(),
        None,
        None,
    );

    assert!(!is_present(&repo, root));

    // Create .git directory
    mkdirs(temp.path(), &["test", "repo", ".git"]);
    assert!(is_present(&repo, root));
}

#[test]
fn test_repository_name() {
    let repo = Repository::new(
        "test/repo".to_string(),
        "git@github.com:user/repo.git".to_string(),
        None,
        None,
    );

    assert_eq!(repo.name(), "test/repo");
}

#[test]
fn exists_is_false_when_git_is_a_file() {
    let temp = TempDir::new().unwrap();
    let root = temp.path().to_str().unwrap();
    let dir = mkdirs(temp.path(), &["a", "b"]);
    tempfile::Builder::new()
        .prefix(".git")
        .rand_bytes(0)
        .tempfile_in(&dir)
        .unwrap()
        .keep()
        .unwrap();
    assert!(dir.join(".git").is_file());
    assert!(!is_present(&repo("a/b", "u"), root));
}

#[test]
fn exists_is_false_for_a_missing_root() {
    assert!(!is_present(&repo("a/b", "u"), "/nonexistent/workspace/root"));
}

#[test]
fn get_path_names_the_unresolved_path() {
    let err = repo("org/missing", "u").get_path("/nonexistent/root").unwrap_err();
    assert_eq!(
        format!("{:?}", err),
        "InvalidPath(\"Cannot resolve /nonexistent/root/org/missing\")"
    );
}

#[test]
fn get_path_resolves_an_existing_clone() {
    let temp = TempDir::new().unwrap();
    mkdirs(temp.path(), &["org", "repo", ".git"]);
    let root = temp.path().to_str().unwrap();
    let resolved = repo("org/repo", "u").get_path(root).unwrap();
    let expected = temp.path().join("org/repo").canonicalize().unwrap();
    assert_eq!(resolved, expected.to_str().unwrap());
}

#[test]
fn strings_compare_byte_by_byte() {
    let s = |x: &str| x.to_string();
    assert_eq!(compare_str(&s("abc"), &s("abd")), Ordering::Less);
    assert_eq!(compare_str(&s("ab"), &s("abc")), Ordering::Less);
    assert_eq!(compare_str(&s("b"), &s("abc")), Ordering::Greater);
    assert_eq!(compare_str(&s("Z"), &s("a")), Ordering::Less);
    assert_eq!(compare_str(&s("é"), &s("z")), Ordering::Greater);
    assert_eq!(compare_str(&s(""), &s("")), Ordering::Equal);
    assert_eq!(compare_str(&s("same"), &s("same")), Ordering::Equal);
}

#[test]
fn repositories_compare_by_path_then_url_then_upstream_then_branch() {
    let a = repo("a", "z");
    let b = repo("b", "a");
    assert_eq!(compare_repo(&a, &b), Ordering::Less);
    assert_eq!(compare_repo(&repo("a", "x"), &repo("a", "y")), Ordering::Less);
    let plain = repo("a", "x");
    let with_upstream = Repository::new("a".into(), "x".into(), None, Some("u".into()));
    assert_eq!(compare_repo(&plain, &with_upstream), Ordering::Less);
    let main = Repository::new("a".into(), "x".into(), Some("main".into()), None);
    let dev = Repository::new("a".into(), "x".into(), Some("dev".into()), None);
    assert_eq!(compare_repo(&main, &dev), Ordering::Greater);
    assert_eq!(compare_repo(&main, &main.duplicate()), Ordering::Equal);
}

#[test]
fn presence_needs_a_resolved_git_directory() {
    assert!(present(Some(true)));
    assert!(!present(Some(false)));
    assert!(!present(None));
}
