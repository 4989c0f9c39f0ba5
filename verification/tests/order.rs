//! String order tests: the lexicographic comparison the tag panes sort
//! by.

use wyrcan::strorder::str_eq;
use wyrcan::strorder::str_lt;

#[test]
fn compares_lexicographically() {
    assert!(str_lt("a", "b"));
    assert!(!str_lt("b", "a"));
    assert!(!str_lt("a", "a"));
    assert!(str_lt("a", "ab"));
    assert!(!str_lt("ab", "a"));
    assert!(str_lt("", "a"));
    assert!(!str_lt("", ""));
    assert!(str_lt("abc", "abd"));
    assert!(str_lt("Z", "a"));
}

#[test]
fn equality_is_exact() {
    assert!(str_eq("", ""));
    assert!(str_eq("abc", "abc"));
    assert!(!str_eq("abc", "abd"));
    assert!(!str_eq("abc", "ab"));
}

#[test]
fn handles_non_ascii_code_points() {
    assert!(str_lt("a", "\u{00e9}"));
    assert!(str_eq("caf\u{00e9}", "caf\u{00e9}"));
    assert!(!str_eq("caf\u{00e9}", "cafe"));
}
