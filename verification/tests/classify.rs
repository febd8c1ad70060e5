use hold_migrate::plan::{
    classify, is_anchored, is_binary_stale, is_rust_source_name, latest_source_mtime, Classification,
    Evidence, Probe, SourceFile, Verdict,
};

fn run_probes(target: bool, lock: bool, anchored: bool, stale: bool) -> (Classification, Vec<Probe>) {
    let mut evidence = Evidence::none();
    let mut asked = Vec::new();
    loop {
        match classify(&evidence) {
            Verdict::Decided(c) => return (c, asked),
            Verdict::NeedProbe(p) => {
                asked.push(p);
                let answer = match p {
                    Probe::TargetDir => target,
                    Probe::BuildLock => lock,
                    Probe::Anchor => anchored,
                    Probe::BinaryStaleness => stale,
                };
                evidence.record(p, answer);
            }
        }
    }
}

#[test]
fn repo_without_anchor_is_not_anchored() {
    let (c, asked) = run_probes(true, false, false, true);
    assert_eq!(c, Classification::NotAnchored);
    assert_eq!(asked, vec![Probe::TargetDir, Probe::BuildLock, Probe::Anchor]);
}

#[test]
fn anchored_repo_without_installed_binary_is_binary_stale() {
    let stale = is_binary_stale(None, &Some(vec![]));
    assert!(stale);
    let (c, _) = run_probes(true, false, true, stale);
    assert_eq!(c, Classification::BinaryStale);
}

#[test]
fn repo_with_cargo_lock_is_build_in_flight() {
    let (c, asked) = run_probes(true, true, true, false);
    assert_eq!(c, Classification::BuildInFlight);
    assert_eq!(asked, vec![Probe::TargetDir, Probe::BuildLock]);
}

#[test]
fn repo_without_target_is_no_target_after_one_probe() {
    let (c, asked) = run_probes(false, true, false, true);
    assert_eq!(c, Classification::NoTarget);
    assert_eq!(asked, vec![Probe::TargetDir]);
}

#[test]
fn anchored_current_repo_is_safe_to_clean_after_four_probes() {
    let (c, asked) = run_probes(true, false, true, false);
    assert_eq!(c, Classification::SafeToClean);
    assert_eq!(asked.len(), 4);
    assert_eq!(asked[3], Probe::BinaryStaleness);
}

#[test]
fn recorded_answers_are_kept() {
    let mut e = Evidence::none();
    e.record(Probe::Anchor, true);
    e.record(Probe::TargetDir, true);
    assert_eq!(e.anchored, Some(true));
    assert_eq!(e.target_dir_exists, Some(true));
    assert_eq!(e.build_lock_present, None);
    assert_eq!(classify(&e), Verdict::NeedProbe(Probe::BuildLock));
}

#[test]
fn labels_are_kebab_case() {
    assert_eq!(Classification::SafeToClean.label(), "safe-to-clean");
    assert_eq!(Classification::NotAnchored.label(), "not-anchored");
    assert_eq!(Classification::BinaryStale.label(), "binary-stale");
    assert_eq!(Classification::BuildInFlight.label(), "build-in-flight");
    assert_eq!(Classification::NoTarget.label(), "no-target");
}

#[test]
fn target_dir_in_config_anchors() {
    let config = "[build]\ntarget-dir = \"/home/user/wintermute/.hold/cargo-target\"\n".to_string();
    assert!(is_anchored(false, &vec![Some(config), None]));
    assert!(is_anchored(false, &vec![None, Some("target-dir".to_string())]));
}

#[test]
fn environment_variable_anchors() {
    assert!(is_anchored(true, &vec![None, None]));
}

#[test]
fn config_without_target_dir_does_not_anchor() {
    let configs = vec![Some("[build]\ntarget = \"x86_64\"\n".to_string()), Some("target-di r".to_string()), None];
    assert!(!is_anchored(false, &configs));
    assert!(!is_anchored(false, &vec![]));
}

fn source(name: &str, modified: Option<i128>) -> SourceFile {
    SourceFile { file_name: name.as_bytes().to_vec(), modified }
}

#[test]
fn rust_source_names() {
    assert!(is_rust_source_name(&b"main.rs".to_vec()));
    assert!(is_rust_source_name(&b"a.rs".to_vec()));
    assert!(!is_rust_source_name(&b".rs".to_vec()));
    assert!(!is_rust_source_name(&b"main.rso".to_vec()));
    assert!(!is_rust_source_name(&b"rs".to_vec()));
    assert!(!is_rust_source_name(&b"main.RS".to_vec()));
}

#[test]
fn latest_mtime_ignores_other_files() {
    let files = vec![
        source("src", Some(900)),
        source("lib.rs", Some(100)),
        source("notes.txt", Some(500)),
        source("main.rs", Some(300)),
        source("broken.rs", None),
    ];
    assert_eq!(latest_source_mtime(&files), Some(300));
    assert_eq!(latest_source_mtime(&vec![source("x.txt", Some(1))]), None);
}

#[test]
fn newer_source_makes_binary_stale() {
    let files = vec![source("main.rs", Some(2_000)), source("lib.rs", Some(500))];
    assert!(is_binary_stale(Some(1_000), &Some(files)));
}

#[test]
fn older_sources_keep_binary_current() {
    let files = vec![source("main.rs", Some(1_000)), source("lib.rs", Some(500)), source("a.txt", Some(9_000))];
    assert!(!is_binary_stale(Some(1_000), &Some(files)));
}

#[test]
fn no_source_dir_or_no_sources_keeps_binary_current() {
    assert!(!is_binary_stale(Some(1_000), &None));
    assert!(!is_binary_stale(Some(1_000), &Some(vec![])));
    assert!(!is_binary_stale(Some(-5), &Some(vec![source("old.rs", None)])));
}

#[test]
fn times_before_the_epoch_compare_correctly() {
    assert!(is_binary_stale(Some(-10), &Some(vec![source("main.rs", Some(-3))])));
    assert!(!is_binary_stale(Some(-3), &Some(vec![source("main.rs", Some(-10))])));
}
