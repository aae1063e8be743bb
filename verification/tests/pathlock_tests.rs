use taskstore::pathlock::{normalize_path, LockPath, PathPart, TaskScope};
use taskstore::{PathLockError, PathLockManager};

fn part(name: &str) -> PathPart {
    PathPart::Name(name.to_string())
}

fn path(names: &[&str]) -> LockPath {
    LockPath::from_parts(names.iter().map(|n| n.to_string()).collect())
}

fn names(p: &LockPath) -> Vec<String> {
    p.parts.clone()
}

#[test]
fn normalization_resolves_dots() {
    // `src/./lib/../main.rs` under `/work` becomes `/work/src/main.rs`.
    let parts = vec![
        part("work"),
        part("src"),
        PathPart::Cur,
        part("lib"),
        PathPart::Parent,
        part("main.rs"),
    ];
    let normalized = normalize_path(&parts);
    assert_eq!(names(&normalized), vec!["work", "src", "main.rs"]);
}

#[test]
fn normalization_keeps_plain_paths() {
    let parts = vec![part("a"), part("b"), part("c")];
    assert_eq!(names(&normalize_path(&parts)), vec!["a", "b", "c"]);
}

#[test]
fn parent_at_the_top_is_ignored() {
    let parts = vec![PathPart::Parent, part("x")];
    assert_eq!(names(&normalize_path(&parts)), vec!["x"]);
}

#[test]
fn overlap_detects_equal_and_nested_paths() {
    let a = vec![path(&["w", "src", "main.rs"])];
    let b = vec![path(&["w", "src", "main.rs"])];
    assert!(PathLockManager::has_overlap(&a, &b).is_some());

    let dir = vec![path(&["w", "src"])];
    assert!(PathLockManager::has_overlap(&a, &dir).is_some());
    assert!(PathLockManager::has_overlap(&dir, &a).is_some());

    let other = vec![path(&["w", "tests", "t.rs"])];
    assert!(PathLockManager::has_overlap(&a, &other).is_none());
}

#[test]
fn overlap_reports_the_offending_pair() {
    let a = vec![path(&["q"]), path(&["w", "src"])];
    let b = vec![path(&["w", "src", "lib.rs"])];
    let (p1, p2) = PathLockManager::has_overlap(&a, &b).expect("overlaps");
    assert_eq!(names(&p1), vec!["w", "src"]);
    assert_eq!(names(&p2), vec!["w", "src", "lib.rs"]);
}

#[test]
fn overlapping_scope_is_refused() {
    let mut m = PathLockManager::new();
    m.add_scope("task-1", vec!["w/src/*.rs".to_string()],
        vec![path(&["w", "src", "main.rs"]), path(&["w", "src", "lib.rs"])], false)
        .expect("first scope");

    let r = m.add_scope("task-2", vec!["w/src/main.rs".to_string()],
        vec![path(&["w", "src", "main.rs"])], false);
    match r {
        Err(PathLockError::Overlap(p1, p2)) => {
            assert_eq!(names(&p1), vec!["w", "src", "main.rs"]);
            assert_eq!(names(&p2), vec!["w", "src", "main.rs"]);
        }
        _ => panic!("expected an overlap"),
    }
    // The refused scope was not registered.
    assert_eq!(m.scopes.len(), 1);
}

#[test]
fn override_allows_overlapping_scope() {
    let mut m = PathLockManager::new();
    m.add_scope("task-1", vec![], vec![path(&["w", "src", "lib.rs"])], false).expect("first");
    m.add_scope("task-3", vec![], vec![path(&["w", "src", "lib.rs"])], true).expect("override");
    assert_eq!(m.scopes.len(), 2);
}

#[test]
fn registering_an_id_again_replaces_its_scope() {
    let mut m = PathLockManager::new();
    m.add_scope("task-1", vec![], vec![path(&["a"])], false).expect("first");
    m.add_scope("task-1", vec![], vec![path(&["b"])], true).expect("replacement");
    assert_eq!(m.scopes.len(), 1);
    let scope: &TaskScope = &m.scopes[0];
    assert_eq!(scope.id, "task-1");
    assert_eq!(names(&scope.resolved_paths[0]), vec!["b"]);
    assert!(scope.locked);
}

#[test]
fn remove_scope_forgets_only_that_id() {
    let mut m = PathLockManager::new();
    m.add_scope("task-a", vec![], vec![path(&["a"])], false).expect("a");
    m.add_scope("task-b", vec![], vec![path(&["b"])], false).expect("b");
    m.remove_scope("task-a");
    assert_eq!(m.scopes.len(), 1);
    assert_eq!(m.scopes[0].id, "task-b");
    m.remove_scope("task-unknown");
    assert_eq!(m.scopes.len(), 1);
}

#[test]
fn find_conflicts_lists_every_overlapping_task() {
    let mut m = PathLockManager::new();
    m.add_scope("task-a", vec![], vec![path(&["c", "Button.tsx"])], false).expect("a");
    m.add_scope("task-b", vec![], vec![path(&["c", "Input.tsx"])], false).expect("b");

    let probe = vec![path(&["c", "Button.tsx"]), path(&["c", "Input.tsx"])];
    let conflicts = m.find_conflicts(&probe);
    assert_eq!(conflicts.len(), 2);
    assert_eq!(conflicts[0], "task-a");
    assert_eq!(conflicts[1], "task-b");

    let disjoint = vec![path(&["elsewhere"])];
    assert!(m.find_conflicts(&disjoint).is_empty());
}
