use dev_storage_cleaner::path::NameRules;
use dev_storage_cleaner::path::{clone_path, lies_strictly_under, same_path};
use dev_storage_cleaner::project::ProjectInfo;
use dev_storage_cleaner::ranking::insert_sorted;
use dev_storage_cleaner::selection::{contains_path, is_selected_in};
use dev_storage_cleaner::walk::{EntryKind, WalkEntry};

fn parts(names: &[&str]) -> Vec<String> {
    names.iter().map(|n| n.to_string()).collect()
}

fn project(name: &str, size_bytes: u64) -> ProjectInfo {
    ProjectInfo {
        project_path: parts(&["/", name]),
        node_modules_path: parts(&["/", name, "node_modules"]),
        last_modified: 0,
        size_bytes,
        selected: false,
    }
}

#[test]
fn insertion_goes_behind_equal_sizes() {
    let mut list: Vec<ProjectInfo> = Vec::new();
    for (name, size) in [("a", 5u64), ("b", 7), ("c", 5), ("d", 1), ("e", 7), ("f", 9)] {
        insert_sorted(&mut list, project(name, size));
    }
    let order: Vec<String> = list.iter().map(|p| p.project_path[1].clone()).collect();
    assert_eq!(order, vec!["f", "b", "e", "a", "c", "d"]);
}

#[test]
fn pruned_names() {
    let rules = NameRules::new();
    for name in [".git", ".", "..", ".x", "Library", "System"] {
        assert!(rules.prunes(&name.to_string()), "{}", name);
    }
    for name in ["", "src", "node_modules", "library", "Systems", "a.b", "Library ", "/"] {
        assert!(!rules.prunes(&name.to_string()), "{}", name);
    }
}

#[test]
fn cache_names_and_ancestors() {
    let rules = NameRules::new();
    assert!(rules.names_cache(&"node_modules".to_string()));
    assert!(!rules.names_cache(&"node_module".to_string()));
    assert!(!rules.names_cache(&"Node_modules".to_string()));
    assert!(!rules.finds_cache_ancestor(&parts(&[])));
    assert!(!rules.finds_cache_ancestor(&parts(&["node_modules"])));
    assert!(!rules.finds_cache_ancestor(&parts(&["/", "a", "node_modules"])));
    assert!(rules.finds_cache_ancestor(&parts(&["/", "a", "node_modules", "b"])));
    assert!(rules.finds_cache_ancestor(&parts(&["node_modules", "b", "c"])));
}

#[test]
fn path_relations() {
    let a = parts(&["/", "a", "b"]);
    assert!(same_path(&a, &parts(&["/", "a", "b"])));
    assert!(!same_path(&a, &parts(&["/", "a"])));
    assert!(!same_path(&a, &parts(&["/", "a", "c"])));
    assert_eq!(clone_path(&a), a);
    assert!(lies_strictly_under(&a, &parts(&["/", "a"])));
    assert!(lies_strictly_under(&a, &parts(&[])));
    assert!(!lies_strictly_under(&a, &a));
    assert!(!lies_strictly_under(&a, &parts(&["/", "b"])));
    assert!(!lies_strictly_under(&parts(&["/", "a"]), &a));
}

#[test]
fn reach_follows_the_depth() {
    let rules = NameRules::new();
    let entry = |names: &[&str], depth: usize| WalkEntry {
        path: parts(names),
        depth,
        kind: EntryKind::Directory,
        size: 0,
        modified: None,
    };
    assert!(entry(&["/", ".hidden", "root", "a"], 1).is_reached(&rules));
    assert!(!entry(&["/", ".hidden", "root", "a"], 2).is_reached(&rules));
    assert!(!entry(&["/", ".hidden", "root", "a"], 9).is_reached(&rules));
    assert!(!entry(&["/", "root", ".a"], 0).is_reached(&rules));
    assert!(!entry(&["/", "root", "Library", "a"], 1).is_reached(&rules));
    assert!(entry(&["/", "root", "Library", "a"], 0).is_reached(&rules));
    assert!(entry(&[], 0).is_reached(&rules));
    assert!(!entry(&["."], 0).is_reached(&rules));
}

#[test]
fn lookups_in_lists() {
    let mut marked = project("a", 1);
    marked.selected = true;
    let list = vec![project("b", 2), marked];
    assert!(is_selected_in(&list, &parts(&["/", "a", "node_modules"])));
    assert!(!is_selected_in(&list, &parts(&["/", "b", "node_modules"])));
    assert!(!is_selected_in(&list, &parts(&["/", "c", "node_modules"])));
    let paths = vec![parts(&["/", "a"]), parts(&["/", "b"])];
    assert!(contains_path(&paths, &parts(&["/", "b"])));
    assert!(!contains_path(&paths, &parts(&["/"])));
}
