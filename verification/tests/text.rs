use maestro::text::{
    ends_with, last_segment, split_first, starts_with, str_eq, str_lt, strip_suffix, take_chars,
    trim_start,
};

#[test]
fn str_lt_is_code_point_order() {
    assert!(str_lt("a", "b"));
    assert!(!str_lt("b", "a"));
    assert!(str_lt("", "a"));
    assert!(!str_lt("a", "a"));
    assert!(str_lt("ab", "abc"));
    assert!(str_lt("Z", "a"));
    assert!(str_lt("e", "é"));
    assert!(str_lt("de", "dé"));
}

#[test]
fn str_eq_compares_characters() {
    assert!(str_eq("active", "active"));
    assert!(!str_eq("active", "activ"));
    assert!(!str_eq("active", "Active"));
    assert!(str_eq("", ""));
}

#[test]
fn prefixes_and_suffixes() {
    assert!(starts_with("/home/u/.config", "/home/u"));
    assert!(!starts_with("/home", "/home/u"));
    assert!(starts_with("x", ""));
    assert!(ends_with("a.timer", ".timer"));
    assert!(!ends_with("a.timer", ".service"));
    assert!(!ends_with("timer", ".timer"));
    assert_eq!(strip_suffix("backup.timer", ".timer"), Some("backup"));
    assert_eq!(strip_suffix("backup.service", ".timer"), None);
}

#[test]
fn slicing() {
    assert_eq!(last_segment("/a/b/c.service", '/'), "c.service");
    assert_eq!(last_segment("c.service", '/'), "c.service");
    assert_eq!(last_segment("/a/b/", '/'), "");
    assert_eq!(trim_start("//web", '/'), "web");
    assert_eq!(trim_start("web", '/'), "web");
    assert_eq!(take_chars("0123456789abcdef", 12), "0123456789ab");
    assert_eq!(take_chars("abc", 12), "abc");
    assert_eq!(split_first("a:b:c", ':'), Some(("a", "b:c")));
    assert_eq!(split_first("abc", ':'), None);
}
