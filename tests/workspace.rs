use git_workspace::commands::select;
use git_workspace::drift::ArchiveScan;
use git_workspace::repository::{present, Repository};
use std::path::{Path, PathBuf};
use tempfile::TempDir;

/// Whether the clone of `repo` is there, as the command checks it.
fn is_present(repo: &Repository, root: &str) -> bool {
    present(
        repo.get_path(root)
            .ok()
            .map(|p| Path::new(&p).join(".git").is_dir()),
    )
}
use walkdir::WalkDir;

/// Creates the directory `name` in `parent`, and keeps it.
fn mkdir(parent: &Path, name: &str) -> PathBuf {
    tempfile::Builder::new()
        .prefix(name)
        .rand_bytes(0)
        .tempdir_in(parent)
        .unwrap()
        .keep()
}

/// Creates each missing directory of `rel` below `root`.
fn mkdirs(root: &Path, rel: &[&str]) -> PathBuf {
    let mut p = root.to_path_buf();
    for part in rel {
        let next = p.join(part);
        p = if next.is_dir() { next } else { mkdir(&p, part) };
    }
    p
}

/// Walks `root` with the scan, reading the disk as the command does.
fn candidates(root: &Path, protected: Vec<Vec<String>>) -> Vec<Vec<String>> {
    let mut scan = ArchiveScan::new(&protected, &vec![".archive".to_string()]);
    while let Some(dir) = scan.next_directory() {
        let mut abs = root.to_path_buf();
        for c in &dir {
            abs.push(c);
        }
        let has_git = abs.join(".git").is_dir();
        let mut subdirs = Vec::new();
        if !has_git {
            for entry in WalkDir::new(&abs).min_depth(1).max_depth(1) {
                let entry = entry.unwrap();
                if entry.file_type().is_dir() {
                    subdirs.push(entry.file_name().to_string_lossy().into_owned());
                }
            }
            subdirs.sort();
        }
        scan.visit(has_git, &subdirs);
    }
    scan.candidates().iter().map(|c| c.path.clone()).collect()
}

#[test]
fn missing_repository_is_cloned_then_archived_once_dropped() {
    let temp = TempDir::new().unwrap();
    let root = temp.path().to_str().unwrap();
    mkdirs(temp.path(), &[".archive"]);
    let desired = vec![Repository::new(
        "org/repo1".to_string(),
        "git@host:org/repo1.git".to_string(),
        None,
        None,
    )];

    // repo1 is absent, so it is the one to clone.
    let missing: Vec<bool> = desired.iter().map(|r| !is_present(r, root)).collect();
    let to_clone = select(desired.iter().map(|r| r.duplicate()).collect(), &missing);
    assert_eq!(to_clone.len(), 1);
    let plan = Repository::clone(&to_clone[0], root);
    assert_eq!(plan.args[4], format!("{}/org/repo1", root));

    // What the clone leaves behind.
    mkdirs(temp.path(), &["org", "repo1", ".git"]);
    assert!(is_present(&desired[0], root));
    let missing: Vec<bool> = desired.iter().map(|r| !is_present(r, root)).collect();
    assert!(select(desired.iter().map(|r| r.duplicate()).collect(), &missing).is_empty());

    // Still desired: nothing to archive.
    let protected = vec![vec!["org".to_string(), "repo1".to_string()]];
    assert!(candidates(temp.path(), protected).is_empty());

    // Dropped from the desired state but left on disk: a candidate.
    assert_eq!(
        candidates(temp.path(), vec![]),
        vec![vec!["org".to_string(), "repo1".to_string()]]
    );
}
