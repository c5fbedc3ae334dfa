use dev_storage_cleaner::path::NameRules;
use dev_storage_cleaner::project::ProjectInfo;
use dev_storage_cleaner::scanner::Scanner;
use dev_storage_cleaner::walk::{EntryKind, WalkEntry};

const DAY: u64 = 86400;
const NOW: u64 = 1_000 * DAY;

fn path(text: &str) -> Vec<String> {
    let mut parts: Vec<String> = Vec::new();
    if text.starts_with('/') {
        parts.push("/".to_string());
    }
    for part in text.split('/') {
        if !part.is_empty() {
            parts.push(part.to_string());
        }
    }
    parts
}

fn entry(text: &str, depth: usize, kind: EntryKind, size: u64, age_days: u64) -> WalkEntry {
    WalkEntry { path: path(text), depth, kind, size, modified: Some(NOW - age_days * DAY) }
}

fn dir(text: &str, depth: usize, age_days: u64) -> WalkEntry {
    entry(text, depth, EntryKind::Directory, 4096, age_days)
}

fn file(text: &str, depth: usize, size: u64) -> WalkEntry {
    entry(text, depth, EntryKind::File, size, 1)
}

fn cache_paths(projects: &[ProjectInfo]) -> Vec<Vec<String>> {
    projects.iter().map(|p| p.node_modules_path.clone()).collect()
}

#[test]
fn scan_finds_a_cache_directory_with_its_project_and_size() {
    let entries = vec![
        dir("/root", 0, 50),
        dir("/root/A", 1, 50),
        dir("/root/A/node_modules", 2, 40),
        file("/root/A/node_modules/index.js", 3, 700),
        dir("/root/A/node_modules/pkg", 3, 40),
        file("/root/A/node_modules/pkg/lib.js", 4, 300),
        file("/root/A/main.js", 2, 5_000),
    ];
    let found = Scanner::new(30).scan(&entries, NOW);
    assert_eq!(
        found,
        vec![ProjectInfo {
            project_path: path("/root/A"),
            node_modules_path: path("/root/A/node_modules"),
            last_modified: NOW - 40 * DAY,
            size_bytes: 1_000,
            selected: false,
        }]
    );
}

#[test]
fn scan_leaves_out_what_is_younger_than_the_threshold() {
    let entries = vec![
        dir("/root", 0, 50),
        dir("/root/A", 1, 50),
        dir("/root/A/node_modules", 2, 40),
        dir("/root/B", 1, 50),
        dir("/root/B/node_modules", 2, 5),
    ];
    assert_eq!(
        cache_paths(&Scanner::new(30).scan(&entries, NOW)),
        vec![path("/root/A/node_modules")]
    );
    assert_eq!(Scanner::new(0).scan(&entries, NOW).len(), 2);
    assert_eq!(Scanner::new(41).scan(&entries, NOW).len(), 0);
    assert_eq!(
        cache_paths(&Scanner::new(40).scan(&entries, NOW)),
        vec![path("/root/A/node_modules")]
    );
}

#[test]
fn age_is_counted_in_whole_days() {
    let almost_two_days = WalkEntry {
        path: path("/root/node_modules"),
        depth: 1,
        kind: EntryKind::Directory,
        size: 0,
        modified: Some(NOW - 2 * DAY + 1),
    };
    let entries = vec![dir("/root", 0, 3), almost_two_days];
    assert_eq!(Scanner::new(1).scan(&entries, NOW).len(), 1);
    assert_eq!(Scanner::new(2).scan(&entries, NOW).len(), 0);
}

#[test]
fn a_directory_modified_in_the_future_has_age_zero() {
    let ahead = WalkEntry {
        path: path("/root/node_modules"),
        depth: 1,
        kind: EntryKind::Directory,
        size: 0,
        modified: Some(NOW + 10 * DAY),
    };
    let entries = vec![dir("/root", 0, 3), ahead];
    assert_eq!(Scanner::new(0).scan(&entries, NOW).len(), 1);
    assert_eq!(Scanner::new(1).scan(&entries, NOW).len(), 0);
}

#[test]
fn nested_cache_directories_are_not_detected() {
    let entries = vec![
        dir("/root", 0, 50),
        dir("/root/A", 1, 50),
        dir("/root/A/node_modules", 2, 40),
        dir("/root/A/node_modules/@esbuild-kit", 3, 40),
        dir("/root/A/node_modules/@esbuild-kit/core-utils", 4, 40),
        dir("/root/A/node_modules/@esbuild-kit/core-utils/node_modules", 5, 40),
        file("/root/A/node_modules/@esbuild-kit/core-utils/node_modules/x.js", 6, 11),
        dir("/root/A/node_modules/node_modules", 3, 40),
    ];
    let found = Scanner::new(0).scan(&entries, NOW);
    assert_eq!(cache_paths(&found), vec![path("/root/A/node_modules")]);
    assert_eq!(found[0].size_bytes, 11);
    for outer in &found {
        for inner in &found {
            let inside = inner.node_modules_path.len() > outer.node_modules_path.len()
                && inner.node_modules_path[..outer.node_modules_path.len()]
                    == outer.node_modules_path[..];
            assert!(!inside);
        }
    }
}

#[test]
fn a_cache_directory_above_the_root_hides_everything_below() {
    let entries = vec![
        dir("/work/node_modules/pkg", 0, 50),
        dir("/work/node_modules/pkg/node_modules", 1, 50),
    ];
    assert_eq!(Scanner::new(0).scan(&entries, NOW).len(), 0);
}

#[test]
fn the_root_itself_can_be_a_cache_directory() {
    let entries = vec![
        dir("/work/node_modules", 0, 50),
        file("/work/node_modules/a.js", 1, 9),
    ];
    let found = Scanner::new(0).scan(&entries, NOW);
    assert_eq!(cache_paths(&found), vec![path("/work/node_modules")]);
    assert_eq!(found[0].project_path, path("/work"));
    assert_eq!(found[0].size_bytes, 9);
}

#[test]
fn hidden_and_system_directories_are_pruned() {
    let entries = vec![
        dir("/root", 0, 50),
        dir("/root/.cache", 1, 50),
        dir("/root/.cache/node_modules", 2, 50),
        dir("/root/Library", 1, 50),
        dir("/root/Library/app", 2, 50),
        dir("/root/Library/app/node_modules", 3, 50),
        dir("/root/System", 1, 50),
        dir("/root/System/node_modules", 2, 50),
        dir("/root/Systems", 1, 50),
        dir("/root/Systems/node_modules", 2, 50),
        dir("/root/library", 1, 50),
        dir("/root/library/node_modules", 2, 50),
    ];
    assert_eq!(
        cache_paths(&Scanner::new(0).scan(&entries, NOW)),
        vec![path("/root/Systems/node_modules"), path("/root/library/node_modules")]
    );
}

#[test]
fn names_above_the_root_are_not_pruned() {
    let entries = vec![
        dir("/home/.config/Library/work", 0, 50),
        dir("/home/.config/Library/work/node_modules", 1, 50),
    ];
    assert_eq!(Scanner::new(0).scan(&entries, NOW).len(), 1);
}

#[test]
fn a_hidden_root_yields_nothing() {
    let entries = vec![dir("/home/.work", 0, 50), dir("/home/.work/node_modules", 1, 50)];
    assert_eq!(Scanner::new(0).scan(&entries, NOW).len(), 0);
}

#[test]
fn only_directories_are_detected() {
    let entries = vec![
        dir("/root", 0, 50),
        dir("/root/A", 1, 50),
        entry("/root/A/node_modules", 2, EntryKind::Symlink, 20, 50),
        dir("/root/B", 1, 50),
        entry("/root/B/node_modules", 2, EntryKind::File, 20, 50),
        dir("/root/C", 1, 50),
        entry("/root/C/node_modules", 2, EntryKind::Other, 20, 50),
    ];
    assert_eq!(Scanner::new(0).scan(&entries, NOW).len(), 0);
}

#[test]
fn a_directory_without_a_modification_time_is_not_detected() {
    let entries = vec![
        dir("/root", 0, 50),
        WalkEntry {
            path: path("/root/node_modules"),
            depth: 1,
            kind: EntryKind::Directory,
            size: 0,
            modified: None,
        },
    ];
    assert_eq!(Scanner::new(0).scan(&entries, NOW).len(), 0);
}

#[test]
fn an_empty_walk_yields_nothing() {
    let entries: Vec<WalkEntry> = Vec::new();
    let (found, names) = Scanner::new(0).scan_with_progress(&entries, NOW);
    assert!(found.is_empty());
    assert!(names.is_empty());
}

#[test]
fn size_counts_regular_files_only_and_hidden_ones_too() {
    let entries = vec![
        dir("/root", 0, 50),
        dir("/root/node_modules", 1, 50),
        file("/root/node_modules/a.js", 2, 100),
        dir("/root/node_modules/.bin", 2, 50),
        file("/root/node_modules/.bin/tool", 3, 30),
        entry("/root/node_modules/.bin/link", 3, EntryKind::Symlink, 5_000, 1),
        entry("/root/node_modules/socket", 2, EntryKind::Other, 7_000, 1),
        file("/root/node_modules_extra.txt", 1, 900),
        file("/root/other/node_modules/b.js", 3, 1),
    ];
    assert_eq!(Scanner::calculate_dir_size(&entries, &path("/root/node_modules")), 130);
    assert_eq!(Scanner::calculate_dir_size(&entries, &path("/root")), 1_031);
    assert_eq!(Scanner::calculate_dir_size(&entries, &path("/root/node_modules/a.js")), 0);
    assert_eq!(Scanner::new(0).scan(&entries, NOW)[0].size_bytes, 130);
}

#[test]
fn size_of_a_directory_that_could_not_be_read_is_zero() {
    let entries = vec![dir("/root", 0, 50), dir("/root/node_modules", 1, 50)];
    assert_eq!(Scanner::new(0).scan(&entries, NOW)[0].size_bytes, 0);
}

#[test]
fn size_stops_at_the_largest_number() {
    let entries = vec![
        dir("/root", 0, 50),
        dir("/root/node_modules", 1, 50),
        file("/root/node_modules/a", 2, u64::MAX),
        file("/root/node_modules/b", 2, 5),
    ];
    assert_eq!(Scanner::calculate_dir_size(&entries, &path("/root/node_modules")), u64::MAX);
}

#[test]
fn result_is_sorted_by_size_and_stable() {
    let mut entries = vec![dir("/root", 0, 50)];
    for (name, size) in [("a", 5u64), ("b", 9), ("c", 5), ("d", 20), ("e", 9), ("f", 5)] {
        entries.push(dir(&format!("/root/{}", name), 1, 50));
        entries.push(dir(&format!("/root/{}/node_modules", name), 2, 50));
        entries.push(file(&format!("/root/{}/node_modules/x", name), 3, size));
    }
    let found = Scanner::new(0).scan(&entries, NOW);
    let order: Vec<(String, u64)> =
        found.iter().map(|p| (p.project_path[2].clone(), p.size_bytes)).collect();
    let expected: Vec<(String, u64)> =
        [("d", 20u64), ("b", 9), ("e", 9), ("a", 5), ("c", 5), ("f", 5)]
            .iter()
            .map(|(n, s)| (n.to_string(), *s))
            .collect();
    assert_eq!(order, expected);
}

#[test]
fn progress_names_every_tenth_entry_that_is_reached() {
    let mut entries = vec![dir("/root", 0, 50)];
    for i in 0..12 {
        entries.push(file(&format!("/root/f{}", i), 1, 1));
        entries.push(file(&format!("/root/.h{}", i), 1, 1));
    }
    entries.push(dir("/root/node_modules", 1, 50));
    for i in 0..8 {
        entries.push(file(&format!("/root/node_modules/g{}", i), 2, 1));
    }
    let scanner = Scanner::new(0);
    let (found, names) = scanner.scan_with_progress(&entries, NOW);
    assert_eq!(names, vec!["f8".to_string(), "g5".to_string()]);
    assert_eq!(found, scanner.scan(&entries, NOW));
    assert_eq!(found.len(), 1);
}

#[test]
fn days_old_is_the_whole_number_of_days() {
    let project = ProjectInfo {
        project_path: path("/root/A"),
        node_modules_path: path("/root/A/node_modules"),
        last_modified: 1_000_000,
        size_bytes: 0,
        selected: false,
    };
    assert_eq!(project.days_old(1_000_000), 0);
    assert_eq!(project.days_old(1_000_000 + 86_399), 0);
    assert_eq!(project.days_old(1_000_000 + 86_400), 1);
    assert_eq!(project.days_old(1_000_000 + 40 * 86_400 + 7), 40);
    assert_eq!(project.days_old(999_999), 0);
    assert_eq!(project.days_old(0), 0);
}

#[test]
fn distinct_walk_paths_give_distinct_cache_paths() {
    let entries = vec![
        dir("/root", 0, 50),
        dir("/root/A", 1, 50),
        dir("/root/A/node_modules", 2, 50),
        dir("/root/B", 1, 50),
        dir("/root/B/node_modules", 2, 50),
        dir("/root/B/sub", 2, 50),
        dir("/root/B/sub/node_modules", 3, 50),
    ];
    let paths = cache_paths(&Scanner::new(0).scan(&entries, NOW));
    assert_eq!(paths.len(), 3);
    for i in 0..paths.len() {
        for j in 0..i {
            assert_ne!(paths[i], paths[j]);
        }
    }
}

#[test]
fn leaving_out_what_may_be_skipped_changes_nothing() {
    let entries = vec![
        dir("/root", 0, 50),
        dir("/root/.git", 1, 50),
        file("/root/.git/config", 2, 10),
        dir("/root/.git/node_modules", 2, 50),
        file("/root/.git/node_modules/x", 3, 10),
        dir("/root/Library", 1, 50),
        dir("/root/Library/node_modules", 2, 50),
        dir("/root/A", 1, 50),
        dir("/root/A/node_modules", 2, 50),
        dir("/root/A/node_modules/.bin", 3, 50),
        file("/root/A/node_modules/.bin/tool", 4, 7),
        dir("/root/A/node_modules/Library", 3, 50),
        file("/root/A/node_modules/Library/data", 4, 5),
        file("/root/A/node_modules/index.js", 3, 3),
        file("/root/A/.env", 2, 1),
        file("/root/f1", 1, 1),
        file("/root/f2", 1, 1),
        file("/root/f3", 1, 1),
        file("/root/f4", 1, 1),
    ];
    let rules = NameRules::new();
    let kept: Vec<WalkEntry> = entries
        .iter()
        .filter(|e| {
            let start = e.path.len() - 1 - e.depth;
            (start..e.path.len()).all(|m| !rules.skips(&e.path[..=m].to_vec()))
        })
        .cloned()
        .collect();
    let kept_paths: Vec<Vec<String>> = kept.iter().map(|e| e.path.clone()).collect();
    assert_eq!(
        kept_paths,
        vec![
            path("/root"),
            path("/root/A"),
            path("/root/A/node_modules"),
            path("/root/A/node_modules/.bin"),
            path("/root/A/node_modules/.bin/tool"),
            path("/root/A/node_modules/Library"),
            path("/root/A/node_modules/Library/data"),
            path("/root/A/node_modules/index.js"),
            path("/root/f1"),
            path("/root/f2"),
            path("/root/f3"),
            path("/root/f4"),
        ]
    );
    let scanner = Scanner::new(0);
    let (found, names) = scanner.scan_with_progress(&entries, NOW);
    assert_eq!(scanner.scan_with_progress(&kept, NOW), (found, names));
    let found = scanner.scan(&entries, NOW);
    assert_eq!(cache_paths(&found), vec![path("/root/A/node_modules")]);
    assert_eq!(found[0].size_bytes, 15);
}

#[test]
fn skipping_stops_inside_cache_directories() {
    let rules = NameRules::new();
    assert!(rules.skips(&path("/root/.git")));
    assert!(rules.skips(&path("/root/Library")));
    assert!(rules.skips(&path("/root/a/System")));
    assert!(!rules.skips(&path("/root/a")));
    assert!(!rules.skips(&path("/root/node_modules")));
    assert!(!rules.skips(&path("/root/node_modules/.bin")));
    assert!(!rules.skips(&path("/root/node_modules/a/Library")));
    assert!(rules.skips(&path("/node_modules_old/.bin")));
    assert!(!rules.skips(&path("")));
}

#[test]
fn a_copy_of_an_entry_is_the_same_entry() {
    let entry = file("/root/a.txt", 1, 12);
    assert_eq!(entry.clone(), entry);
}
