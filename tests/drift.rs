use git_workspace::drift::{same_components, ArchiveScan, ScanStep};

fn comps(parts: &[&str]) -> Vec<String> {
    parts.iter().map(|s| s.to_string()).collect()
}

/// Runs a scan over a directory tree given as (directory, has .git,
/// subdirectories); returns the candidates and every directory examined.
fn run(
    protected: Vec<Vec<String>>,
    tree: &[(&[&str], bool, &[&str])],
) -> (Vec<(Vec<String>, Vec<String>)>, Vec<Vec<String>>) {
    let mut scan = ArchiveScan::new(&protected, &comps(&[".archive"]));
    let mut visited = Vec::new();
    while let Some(dir) = scan.next_directory() {
        let (has_git, subdirs) = tree
            .iter()
            .find(|(d, _, _)| comps(d) == dir)
            .map(|(_, g, s)| (*g, comps(s)))
            .unwrap_or((false, vec![]));
        visited.push(dir);
        scan.visit(has_git, &subdirs);
    }
    let candidates = scan
        .candidates()
        .iter()
        .map(|c| (c.path.clone(), c.destination.clone()))
        .collect();
    (candidates, visited)
}

#[test]
fn stray_repository_is_the_only_candidate() {
    let tree: &[(&[&str], bool, &[&str])] = &[
        (&[], false, &[".archive", "A", "B"]),
        (&["A"], true, &["src"]),
        (&["B"], true, &["src"]),
    ];
    let (candidates, visited) = run(vec![comps(&["A"])], tree);
    assert_eq!(
        candidates,
        vec![(comps(&["B"]), comps(&[".archive", "B"]))]
    );
    assert!(!visited.contains(&comps(&["A"])));
    assert!(!visited.contains(&comps(&[".archive"])));
}

#[test]
fn nothing_below_a_protected_or_archived_directory_is_a_candidate() {
    let tree: &[(&[&str], bool, &[&str])] = &[
        (&[], false, &[".archive", "org"]),
        (&[".archive"], false, &["old"]),
        (&[".archive", "old"], true, &[]),
        (&["org"], false, &["kept", "gone"]),
        (&["org", "kept"], true, &["vendor"]),
        (&["org", "kept", "vendor"], true, &[]),
        (&["org", "gone"], true, &["nested"]),
        (&["org", "gone", "nested"], true, &[]),
    ];
    let (candidates, visited) = run(vec![comps(&["org", "kept"])], tree);
    assert_eq!(
        candidates,
        vec![(comps(&["org", "gone"]), comps(&[".archive", "org", "gone"]))]
    );
    assert!(!visited.contains(&comps(&["org", "gone", "nested"])));
    assert!(!visited.contains(&comps(&["org", "kept", "vendor"])));
    assert!(!visited.contains(&comps(&[".archive", "old"])));
}

#[test]
fn walk_visits_subdirectories_in_order() {
    let tree: &[(&[&str], bool, &[&str])] = &[
        (&[], false, &["a", "b"]),
        (&["a"], false, &["x"]),
        (&["a", "x"], true, &[]),
        (&["b"], true, &[]),
    ];
    let (candidates, visited) = run(vec![], tree);
    assert_eq!(
        visited,
        vec![comps(&[]), comps(&["a"]), comps(&["a", "x"]), comps(&["b"])]
    );
    assert_eq!(candidates.len(), 2);
    assert_eq!(candidates[0].0, comps(&["a", "x"]));
    assert_eq!(candidates[1].1, comps(&[".archive", "b"]));
}

#[test]
fn visit_without_a_directory_is_idle() {
    let mut scan = ArchiveScan::new(&vec![], &comps(&[".archive"]));
    assert_eq!(scan.visit(true, &vec![]), ScanStep::Idle);
    assert_eq!(scan.next_directory(), Some(vec![]));
    assert_eq!(scan.visit(false, &vec![]), ScanStep::Descend);
    assert_eq!(scan.next_directory(), None);
    assert!(scan.candidates().is_empty());
}

#[test]
fn components_compare_whole() {
    assert!(same_components(&comps(&["a", "b"]), &comps(&["a", "b"])));
    assert!(!same_components(&comps(&["a", "b"]), &comps(&["a"])));
    assert!(!same_components(&comps(&["a/b"]), &comps(&["a", "b"])));
}

#[test]
fn a_repeated_subdirectory_name_is_queued_once() {
    let tree: &[(&[&str], bool, &[&str])] = &[
        (&[], false, &["b", "a", "b"]),
        (&["a"], false, &[]),
        (&["b"], true, &[]),
    ];
    let (candidates, visited) = run(vec![], tree);
    assert_eq!(candidates, vec![(comps(&["b"]), comps(&[".archive", "b"]))]);
    assert_eq!(visited, vec![comps(&[]), comps(&["a"]), comps(&["b"])]);
}
