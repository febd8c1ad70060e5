use hold_migrate::plan::{select_for_apply, Classification, RepoEntry};
use hold_migrate::report::{cleaned_message, count_class, reclaimable_bytes, render_plan};
use std::path::PathBuf;

fn entry(name: &str, classification: Classification, bytes: u64) -> RepoEntry {
    RepoEntry { name: name.to_string(), path: PathBuf::from(name), classification, target_bytes: bytes }
}

#[test]
fn empty_plan_says_so() {
    assert_eq!(render_plan(&vec![]), vec!["No repos found.".to_string()]);
}

#[test]
fn plan_table_and_summary() {
    let entries = vec![
        entry("alpha", Classification::SafeToClean, 22),
        entry("beta", Classification::NotAnchored, 1500),
        entry("gamma", Classification::NoTarget, 0),
        entry("delta", Classification::SafeToClean, 2000),
    ];
    let lines = render_plan(&entries);
    let rule = "-".repeat(70);
    let expected = vec![
        format!("{:<30} {:<20} TARGET SIZE", "REPO", "CLASSIFICATION"),
        rule.clone(),
        format!("{:<30} {:<20} {}", "alpha", "safe-to-clean", "22 B"),
        format!("{:<30} {:<20} {}", "beta", "not-anchored", "1.50 kB"),
        format!("{:<30} {:<20} {}", "gamma", "no-target", "-"),
        format!("{:<30} {:<20} {}", "delta", "safe-to-clean", "2 kB"),
        rule,
        "Summary:".to_string(),
        "  no-target: 1".to_string(),
        "  not-anchored: 1".to_string(),
        "  safe-to-clean: 2".to_string(),
        "Total reclaimable: 2.02 kB".to_string(),
    ];
    assert_eq!(lines, expected);
}

#[test]
fn long_names_are_not_cut() {
    let name = "a-repository-name-longer-than-thirty-chars";
    let lines = render_plan(&vec![entry(name, Classification::BinaryStale, 7)]);
    assert_eq!(lines[2], format!("{name} binary-stale         7 B"));
    assert_eq!(lines[lines.len() - 1], "Total reclaimable: 0 B");
}

#[test]
fn summary_counts_many_entries() {
    let mut entries = Vec::new();
    for i in 0..12 {
        entries.push(entry(&format!("r{i:02}"), Classification::BuildInFlight, 1));
    }
    entries.push(entry("s", Classification::BinaryStale, 1));
    let lines = render_plan(&entries);
    let summary: Vec<&String> = lines.iter().skip_while(|l| *l != "Summary:").collect();
    assert_eq!(summary[1], "  binary-stale: 1");
    assert_eq!(summary[2], "  build-in-flight: 12");
    assert_eq!(count_class(&entries, Classification::BuildInFlight), 12);
}

#[test]
fn reclaimable_total_counts_safe_entries_only() {
    let entries = vec![
        entry("a", Classification::SafeToClean, 10),
        entry("b", Classification::BinaryStale, 1000),
        entry("c", Classification::SafeToClean, 5),
    ];
    assert_eq!(reclaimable_bytes(&entries), Some(15));
    let big = vec![
        entry("a", Classification::SafeToClean, u64::MAX),
        entry("b", Classification::SafeToClean, 1),
    ];
    assert_eq!(reclaimable_bytes(&big), None);
}

#[test]
fn cleaned_message_shows_human_size() {
    assert_eq!(cleaned_message("safe-repo", 22), "Cleaned safe-repo \u{2014} freed 22 B");
    assert_eq!(cleaned_message("big", 3_500_000), "Cleaned big \u{2014} freed 3.50 MB");
}

#[test]
fn plan_total_matches_what_apply_cleans() {
    let entries = vec![
        entry("a", Classification::SafeToClean, 10),
        entry("b", Classification::NotAnchored, 1000),
        entry("c", Classification::SafeToClean, 5),
        entry("d", Classification::BuildInFlight, 7),
    ];
    let cleaned: u64 = select_for_apply(&entries, &None).iter().map(|&i| entries[i].target_bytes).sum();
    assert_eq!(Some(cleaned), reclaimable_bytes(&entries));
}
