use hold_migrate::ledger::{default_path, hold_dir};
use hold_migrate::paths::{expand_tilde, join};
use std::path::PathBuf;

#[test]
fn join_matches_pathbuf_join() {
    let cases = [
        ("/home/u", "x"),
        ("/home/u/", "x"),
        ("", "x"),
        ("/home/u", "/abs"),
        ("/home/u", ""),
        ("a", "b/c"),
        ("/", "x"),
    ];
    for (base, rest) in cases {
        let expected = PathBuf::from(base).join(rest);
        assert_eq!(join(base, rest), expected.to_str().unwrap(), "{base} + {rest}");
    }
}

#[test]
fn tilde_expands_to_home() {
    assert_eq!(expand_tilde("~/wintermute", "/home/user"), "/home/user/wintermute");
    assert_eq!(expand_tilde("~/", "/home/user"), "/home/user/");
    assert_eq!(expand_tilde("~//etc", "/home/user"), "/etc");
}

#[test]
fn tilde_without_home_is_relative() {
    assert_eq!(expand_tilde("~/wintermute", ""), "wintermute");
}

#[test]
fn other_paths_are_unchanged() {
    assert_eq!(expand_tilde("/srv/repos", "/home/user"), "/srv/repos");
    assert_eq!(expand_tilde("~", "/home/user"), "~");
    assert_eq!(expand_tilde("~user/x", "/home/user"), "~user/x");
    assert_eq!(expand_tilde("", "/home/user"), "");
}

#[test]
fn ledger_lives_in_the_hold() {
    assert_eq!(hold_dir("/home/user"), "/home/user/wintermute/.hold");
    assert_eq!(default_path("/home/user"), "/home/user/wintermute/.hold/migrate-ledger.jsonl");
}
