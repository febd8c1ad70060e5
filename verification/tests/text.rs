use hold_migrate::text::{chars_of, decimal_exec, occurs, pad_right_exec, precedes_exec, repeat_char};

fn chars(s: &str) -> Vec<char> {
    s.chars().collect()
}

#[test]
fn chars_of_keeps_every_character() {
    assert_eq!(chars_of("a\u{e9}\u{2014}z"), vec!['a', '\u{e9}', '\u{2014}', 'z']);
    assert!(chars_of("").is_empty());
}

#[test]
fn occurs_finds_runs() {
    assert!(occurs(&chars("target-dir"), &chars("[build]\ntarget-dir = \"x\"")));
    assert!(occurs(&chars("dir"), &chars("dir")));
    assert!(occurs(&chars(""), &chars("")));
    assert!(!occurs(&chars("target-dir"), &chars("target-di")));
    assert!(!occurs(&chars("ab"), &chars("a b")));
}

#[test]
fn precedes_is_code_point_order() {
    assert!(precedes_exec(&chars("a"), &chars("b")));
    assert!(precedes_exec(&chars("ab"), &chars("abc")));
    assert!(precedes_exec(&chars("Z"), &chars("a")));
    assert!(!precedes_exec(&chars("abc"), &chars("abc")));
    assert!(!precedes_exec(&chars("b"), &chars("abc")));
    assert!(precedes_exec(&chars("z"), &chars("\u{e9}")));
}

#[test]
fn padding_fills_to_width() {
    assert_eq!(pad_right_exec("ab", 5), "ab   ");
    assert_eq!(pad_right_exec("abcdef", 3), "abcdef");
    assert_eq!(pad_right_exec("\u{e9}", 3), "\u{e9}  ");
    assert_eq!(pad_right_exec("", 0), "");
}

#[test]
fn decimal_numerals() {
    assert_eq!(decimal_exec(0), "0");
    assert_eq!(decimal_exec(7), "7");
    assert_eq!(decimal_exec(120), "120");
    assert_eq!(decimal_exec(u64::MAX), u64::MAX.to_string());
}

#[test]
fn repeated_characters() {
    assert_eq!(repeat_char('-', 4), "----");
    assert_eq!(repeat_char('-', 0), "");
}
