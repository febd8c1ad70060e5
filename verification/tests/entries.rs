use hold_migrate::plan::{
    dir_size, installed_binary_path, repo_name, select_for_apply, sort_by_name, Classification, RepoEntry,
};
use hold_migrate::reclaim::{measure_dir, EntryMeta};
use std::path::PathBuf;

fn entry(name: &str, classification: Classification, bytes: u64) -> RepoEntry {
    RepoEntry {
        name: name.to_string(),
        path: PathBuf::from(format!("/repos/{name}")),
        classification,
        target_bytes: bytes,
    }
}

#[test]
fn unnamed_repo_is_listed_as_unknown() {
    assert_eq!(repo_name(None), "unknown");
    assert_eq!(repo_name(Some("my-crate".to_string())), "my-crate");
}

#[test]
fn entries_sort_by_name() {
    let sorted = sort_by_name(vec![
        entry("zeta", Classification::NoTarget, 0),
        entry("alpha", Classification::SafeToClean, 10),
        entry("Beta", Classification::NotAnchored, 5),
        entry("al", Classification::BinaryStale, 1),
    ]);
    let names: Vec<&str> = sorted.iter().map(|e| e.name.as_str()).collect();
    assert_eq!(names, vec!["Beta", "al", "alpha", "zeta"]);
    assert_eq!(sorted[2].target_bytes, 10);
    assert_eq!(sorted[2].path, PathBuf::from("/repos/alpha"));
}

#[test]
fn sort_keeps_equal_names_in_order() {
    let sorted = sort_by_name(vec![
        entry("unknown", Classification::NoTarget, 1),
        entry("b", Classification::NoTarget, 0),
        entry("unknown", Classification::NoTarget, 2),
        entry("a", Classification::NoTarget, 0),
        entry("unknown", Classification::NoTarget, 3),
    ]);
    let tagged: Vec<(String, u64)> = sorted.iter().map(|e| (e.name.clone(), e.target_bytes)).collect();
    assert_eq!(
        tagged,
        vec![
            ("a".to_string(), 0),
            ("b".to_string(), 0),
            ("unknown".to_string(), 1),
            ("unknown".to_string(), 2),
            ("unknown".to_string(), 3),
        ]
    );
}

#[test]
fn sort_follows_code_points_like_str_ordering() {
    let names = ["é", "z", "Z", "a-b", "a_b", "ab", "", "a"];
    let sorted = sort_by_name(names.iter().map(|n| entry(n, Classification::NoTarget, 0)).collect());
    let got: Vec<String> = sorted.iter().map(|e| e.name.clone()).collect();
    let mut expected: Vec<String> = names.iter().map(|n| n.to_string()).collect();
    expected.sort();
    assert_eq!(got, expected);
}

#[test]
fn apply_selects_only_safe_to_clean() {
    let entries = vec![
        entry("a", Classification::SafeToClean, 1),
        entry("b", Classification::NotAnchored, 1),
        entry("c", Classification::BuildInFlight, 1),
        entry("d", Classification::SafeToClean, 1),
        entry("e", Classification::NoTarget, 0),
        entry("f", Classification::BinaryStale, 1),
    ];
    assert_eq!(select_for_apply(&entries, &None), vec![0, 3]);
}

#[test]
fn apply_with_repo_selects_that_repo_if_safe() {
    let entries = vec![
        entry("a", Classification::SafeToClean, 1),
        entry("b", Classification::NotAnchored, 1),
        entry("d", Classification::SafeToClean, 1),
    ];
    assert_eq!(select_for_apply(&entries, &Some("d".to_string())), vec![2]);
    assert_eq!(select_for_apply(&entries, &Some("b".to_string())), Vec::<usize>::new());
    assert_eq!(select_for_apply(&entries, &Some("zz".to_string())), Vec::<usize>::new());
}

#[test]
fn nothing_to_migrate_when_no_repo_is_safe() {
    let entries = vec![entry("no-target-repo", Classification::NoTarget, 0)];
    assert!(select_for_apply(&entries, &None).is_empty());
}

#[test]
fn sizes_count_regular_files_only() {
    let walked = vec![
        Some(EntryMeta { is_file: false, len: 4096 }),
        Some(EntryMeta { is_file: false, len: 4096 }),
        Some(EntryMeta { is_file: true, len: 22 }),
        None,
        Some(EntryMeta { is_file: true, len: 100 }),
    ];
    assert_eq!(measure_dir(&walked), Some(122));
    assert_eq!(dir_size(&walked), Some(122));
    assert_eq!(measure_dir(&vec![]), Some(0));
}

#[test]
fn size_overflow_is_reported() {
    let walked = vec![
        Some(EntryMeta { is_file: true, len: u64::MAX }),
        Some(EntryMeta { is_file: false, len: 5 }),
    ];
    assert_eq!(measure_dir(&walked), Some(u64::MAX));
    let walked = vec![
        Some(EntryMeta { is_file: true, len: u64::MAX }),
        Some(EntryMeta { is_file: true, len: 1 }),
    ];
    assert_eq!(measure_dir(&walked), None);
    assert_eq!(dir_size(&walked), None);
}

#[test]
fn installed_binary_lives_in_cargo_bin() {
    assert_eq!(installed_binary_path("/home/u", "tool"), "/home/u/.cargo/bin/tool");
    assert_eq!(installed_binary_path("", "tool"), ".cargo/bin/tool");
    assert_eq!(installed_binary_path("/", "tool"), "/.cargo/bin/tool");
}
