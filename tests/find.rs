use rmdirs::{
    classify, compile_all, find_folders, find_folders_recursive, DirNode, Glob, Visit,
};

fn dir(path: &str, children: Vec<DirNode>) -> DirNode {
    let name = path.rsplit('/').next().map(|s| s.to_string());
    let mut node = DirNode::new(path.to_string(), name, true);
    for c in children {
        node.push_child(c);
    }
    node
}

fn file(path: &str) -> DirNode {
    let name = path.rsplit('/').next().map(|s| s.to_string());
    DirNode::new(path.to_string(), name, false)
}

fn globs(texts: &[&str]) -> Vec<Glob> {
    compile_all(&texts.iter().map(|s| s.to_string()).collect())
}

fn find(root: &DirNode, targets: &[&str], excludes: &[&str], max_depth: u8) -> Vec<String> {
    find_folders(root, &globs(targets), &globs(excludes), max_depth)
}

fn sorted(mut v: Vec<String>) -> Vec<String> {
    v.sort();
    v
}

#[test]
fn two_separate_matches() {
    let root = dir(
        "root",
        vec![
            dir("root/a", vec![dir("root/a/node_modules", vec![])]),
            dir("root/b", vec![dir("root/b/c", vec![dir("root/b/c/node_modules", vec![])])]),
        ],
    );
    let found = find(&root, &["node_modules"], &[], 5);
    assert_eq!(
        sorted(found),
        vec!["root/a/node_modules".to_string(), "root/b/c/node_modules".to_string()]
    );
}

#[test]
fn nested_match_is_suppressed() {
    let root = dir(
        "root",
        vec![dir(
            "root/x",
            vec![dir(
                "root/x/node_modules",
                vec![dir("root/x/node_modules/node_modules", vec![])],
            )],
        )],
    );
    let found = find(&root, &["node_modules"], &[], 5);
    assert_eq!(found, vec!["root/x/node_modules".to_string()]);
}

#[test]
fn excluded_subtree_is_skipped() {
    let root = dir(
        "root",
        vec![dir("root/vendor", vec![dir("root/vendor/node_modules", vec![])])],
    );
    let found = find(&root, &["node_modules"], &["vendor"], 5);
    assert!(found.is_empty());
}

#[test]
fn exclusion_by_full_path() {
    let root = dir(
        "root",
        vec![
            dir("root/vendor", vec![dir("root/vendor/node_modules", vec![])]),
            dir("root/app", vec![dir("root/app/node_modules", vec![])]),
        ],
    );
    let found = find(&root, &["node_modules"], &["**/vendor"], 5);
    assert_eq!(found, vec!["root/app/node_modules".to_string()]);
}

#[test]
fn exclusion_wins_over_inclusion() {
    let root = dir("root", vec![dir("root/node_modules", vec![])]);
    let found = find(&root, &["node_modules"], &["node_modules"], 5);
    assert!(found.is_empty());
}

#[test]
fn depth_zero_checks_only_the_root() {
    let root = dir(
        "root",
        vec![
            dir("root/node_modules", vec![]),
            dir("root/a", vec![dir("root/a/node_modules", vec![])]),
        ],
    );
    assert!(find(&root, &["node_modules"], &[], 0).is_empty());
    let named = dir("work/node_modules", vec![]);
    assert_eq!(
        find(&named, &["node_modules"], &[], 0),
        vec!["work/node_modules".to_string()]
    );
}

#[test]
fn depth_one_reaches_direct_entries_only() {
    let root = dir(
        "root",
        vec![
            dir("root/node_modules", vec![]),
            dir("root/a", vec![dir("root/a/node_modules", vec![])]),
        ],
    );
    assert_eq!(
        find(&root, &["node_modules"], &[], 1),
        vec!["root/node_modules".to_string()]
    );
    assert_eq!(
        sorted(find(&root, &["node_modules"], &[], 2)),
        vec!["root/a/node_modules".to_string(), "root/node_modules".to_string()]
    );
}

#[test]
fn invalid_exclusion_is_ignored() {
    let excludes = globs(&["[", "vendor", "a***"]);
    assert_eq!(excludes.len(), 1);
    assert_eq!(excludes[0].as_str(), "vendor");
    let root = dir(
        "root",
        vec![
            dir("root/vendor", vec![dir("root/vendor/node_modules", vec![])]),
            dir("root/web", vec![dir("root/web/node_modules", vec![])]),
        ],
    );
    let found = find(&root, &["node_modules"], &["[", "vendor"], 5);
    assert_eq!(found, vec!["root/web/node_modules".to_string()]);
}

#[test]
fn invalid_target_is_ignored() {
    let root = dir("root", vec![dir("root/target", vec![])]);
    let found = find(&root, &["[", "target"], &[], 5);
    assert_eq!(found, vec!["root/target".to_string()]);
}

#[test]
fn root_that_is_not_a_directory_gives_nothing() {
    let root = file("root/node_modules");
    assert!(find(&root, &["node_modules"], &[], 5).is_empty());
}

#[test]
fn files_are_never_matched() {
    let root = dir("root", vec![file("root/node_modules"), dir("root/build", vec![])]);
    assert_eq!(
        find(&root, &["node_modules", "build"], &[], 5),
        vec!["root/build".to_string()]
    );
}

#[test]
fn several_targets_and_wildcards() {
    let root = dir(
        "root",
        vec![
            dir("root/node_modules", vec![]),
            dir("root/src", vec![dir("root/src/__pycache__", vec![])]),
            dir("root/target-debug", vec![]),
        ],
    );
    let found = find(&root, &["node_modules", "__py*", "target-?????"], &[], 5);
    assert_eq!(
        found,
        vec![
            "root/node_modules".to_string(),
            "root/src/__pycache__".to_string(),
            "root/target-debug".to_string()
        ]
    );
}

#[test]
fn discovery_order_is_kept() {
    let root = dir(
        "root",
        vec![
            dir("root/z", vec![dir("root/z/cache", vec![])]),
            dir("root/cache", vec![]),
            dir("root/a", vec![dir("root/a/cache", vec![])]),
        ],
    );
    assert_eq!(
        find(&root, &["cache"], &[], 5),
        vec![
            "root/z/cache".to_string(),
            "root/cache".to_string(),
            "root/a/cache".to_string()
        ]
    );
}

#[test]
fn matches_name_and_no_ancestor_is_reported() {
    let root = dir(
        "root",
        vec![dir(
            "root/cache",
            vec![dir("root/cache/x", vec![dir("root/cache/x/cache", vec![])])],
        )],
    );
    let found = find(&root, &["cache"], &[], 5);
    assert_eq!(found, vec!["root/cache".to_string()]);
    for a in &found {
        assert!(a.ends_with("/cache"));
        for b in &found {
            assert!(a == b || !b.starts_with(&format!("{}/", a)));
        }
    }
}

#[test]
fn running_twice_gives_the_same_paths() {
    let root = dir(
        "root",
        vec![
            dir("root/a", vec![dir("root/a/node_modules", vec![])]),
            dir("root/b", vec![dir("root/b/node_modules", vec![])]),
        ],
    );
    let first = find(&root, &["node_modules"], &[], 5);
    let second = find(&root, &["node_modules"], &[], 5);
    assert_eq!(first, second);
    assert_eq!(first.len(), 2);
}

#[test]
fn classify_each_decision() {
    let targets = globs(&["node_modules"]);
    let excludes = globs(&["vendor"]);
    let target = dir("root/node_modules", vec![]);
    let plain = dir("root/src", vec![]);
    let excl = dir("root/vendor", vec![]);
    let not_dir = file("root/node_modules");
    let nameless = DirNode::new("/".to_string(), None, true);
    assert_eq!(classify(&target, &targets, &excludes, 5, 1), Visit::Match);
    assert_eq!(classify(&plain, &targets, &excludes, 5, 1), Visit::Descend);
    assert_eq!(classify(&excl, &targets, &excludes, 5, 1), Visit::Skip);
    assert_eq!(classify(&not_dir, &targets, &excludes, 5, 1), Visit::Skip);
    assert_eq!(classify(&target, &targets, &excludes, 5, 6), Visit::Skip);
    assert_eq!(classify(&target, &targets, &excludes, 5, 5), Visit::Match);
    assert_eq!(classify(&nameless, &targets, &excludes, 5, 0), Visit::Descend);
    assert_eq!(classify(&target, &targets, &excludes, 255, 256), Visit::Skip);
}

#[test]
fn largest_depth_bound() {
    let mut node = dir("d/node_modules", vec![]);
    let mut path = "d".to_string();
    for _ in 0..300 {
        path.push_str("/x");
    }
    let mut parts: Vec<String> = Vec::new();
    let mut p = path.clone();
    while p != "d" {
        parts.push(p.clone());
        p = p.rsplit_once('/').unwrap().0.to_string();
    }
    node.path = format!("{}/node_modules", path);
    let mut tree = node;
    for q in parts {
        tree = dir(&q, vec![tree]);
    }
    let root = dir("d", vec![tree]);
    assert!(find(&root, &["node_modules"], &[], 255).is_empty());
    assert_eq!(find(&root, &["x"], &[], 255), vec!["d/x".to_string()]);
}

#[test]
fn differences_below_the_bound_are_ignored() {
    let shallow = dir(
        "root",
        vec![dir("root/a", vec![dir("root/a/b", vec![])]), dir("root/cache", vec![])],
    );
    let deep = dir(
        "root",
        vec![
            dir(
                "root/a",
                vec![dir(
                    "root/a/b",
                    vec![dir("root/a/b/cache", vec![]), dir("root/a/b/x", vec![])],
                )],
            ),
            dir("root/cache", vec![]),
        ],
    );
    let one = find(&shallow, &["cache"], &[], 2);
    let two = find(&deep, &["cache"], &[], 2);
    assert_eq!(one, vec!["root/cache".to_string()]);
    assert_eq!(one, two);
    assert_eq!(
        find(&deep, &["cache"], &[], 3),
        vec!["root/a/b/cache".to_string(), "root/cache".to_string()]
    );
}

#[test]
fn start_depth_above_the_bound_records_nothing() {
    let root = dir("root/node_modules", vec![]);
    let targets = globs(&["node_modules"]);
    let mut result = vec!["kept".to_string()];
    find_folders_recursive(&root, &targets, &Vec::new(), 3, 10, &mut result);
    assert_eq!(result, vec!["kept".to_string()]);
    find_folders_recursive(&root, &targets, &Vec::new(), 3, 3, &mut result);
    assert_eq!(result, vec!["kept".to_string(), "root/node_modules".to_string()]);
}
