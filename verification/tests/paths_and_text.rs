use norisk_downloads::outcome::first_failure;
use norisk_downloads::paths::FsPath;
use norisk_downloads::text::{
    str_concat, find_from, has_prefix, replace_dots_with_slashes, trim_trailing_slashes,
};

fn show(p: &FsPath) -> String {
    let joined = p.components.join("/");
    if p.absolute {
        format!("/{}", joined)
    } else {
        joined
    }
}

#[test]
fn parse_absolute_path() {
    let p = FsPath::parse("/home/user/.norisk/meta");
    assert!(p.absolute);
    assert_eq!(p.components, vec!["home", "user", ".norisk", "meta"]);
}

#[test]
fn parse_drops_empty_and_dot_segments() {
    let p = FsPath::parse("a//b/./c/");
    assert!(!p.absolute);
    assert_eq!(p.components, vec!["a", "b", "c"]);
    let q = FsPath::parse("./..//x");
    assert_eq!(q.components, vec!["..", "x"]);
}

#[test]
fn parse_empty_and_root() {
    let e = FsPath::parse("");
    assert!(!e.absolute);
    assert!(e.components.is_empty());
    let r = FsPath::parse("/");
    assert!(r.absolute);
    assert!(r.components.is_empty());
}

#[test]
fn join_relative_appends() {
    let base = FsPath::parse("/meta");
    assert_eq!(show(&base.join_str("libraries/com/x.jar")), "/meta/libraries/com/x.jar");
}

#[test]
fn join_absolute_replaces() {
    let base = FsPath::parse("/meta");
    assert_eq!(show(&base.join_str("/etc/passwd")), "/etc/passwd");
}

#[test]
fn parent_and_depth() {
    let p = FsPath::parse("/a/b");
    let parent = p.parent().unwrap();
    assert_eq!(show(&parent), "/a");
    assert_eq!(p.depth(), 3);
    assert!(FsPath::parse("/").parent().is_none());
    assert!(FsPath::parse("").parent().is_none());
    let rel = FsPath::parse("a").parent().unwrap();
    assert!(rel.components.is_empty() && !rel.absolute);
}

#[test]
fn starts_with_and_same_path() {
    let base = FsPath::parse("/g/NoRiskClient/assets");
    assert!(FsPath::parse("/g/NoRiskClient/assets/x/y").starts_with(&base));
    assert!(base.starts_with(&base));
    assert!(!FsPath::parse("/g/NoRiskClient/assetsx").starts_with(&base));
    assert!(!FsPath::parse("g/NoRiskClient/assets/x").starts_with(&base));
    assert!(FsPath::parse("/g//NoRiskClient/assets/").same_path(&base));
    assert!(!FsPath::parse("/g/NoRiskClient").same_path(&base));
    assert!(FsPath::parse("/a/b").duplicate().same_path(&FsPath::parse("/a/b")));
}

#[test]
fn find_from_finds_first_occurrence() {
    assert_eq!(find_from("abcabc", "bc", 0), Some(1));
    assert_eq!(find_from("abcabc", "bc", 2), Some(4));
    assert_eq!(find_from("abcabc", "bd", 0), None);
    assert_eq!(find_from("abc", "", 3), Some(3));
    assert_eq!(find_from("ab", "abc", 0), None);
}

#[test]
fn trims_trailing_slashes() {
    assert_eq!(trim_trailing_slashes("https://maven.example.org//"), "https://maven.example.org");
    assert_eq!(trim_trailing_slashes("///"), "");
    assert_eq!(trim_trailing_slashes("a/b"), "a/b");
}

#[test]
fn replaces_dots() {
    assert_eq!(replace_dots_with_slashes("gg.norisk.client"), "gg/norisk/client");
    assert_eq!(replace_dots_with_slashes("..a"), "//a");
    assert_eq!(replace_dots_with_slashes(""), "");
}

#[test]
fn prefix_and_concat() {
    assert!(has_prefix("overrides/options.txt", "overrides/"));
    assert!(!has_prefix("override", "overrides/"));
    assert_eq!(str_concat("ab", "cd"), "abcd");
}

#[test]
fn batch_is_ok_when_all_ok() {
    let r: Result<(), String> = first_failure(vec![Ok(()), Ok(())]);
    assert!(r.is_ok());
    let empty: Result<(), String> = first_failure(vec![]);
    assert!(empty.is_ok());
}

#[test]
fn batch_reports_first_failure() {
    let r = first_failure(vec![Ok(()), Err("first".to_string()), Ok(()), Err("second".to_string())]);
    assert_eq!(r, Err("first".to_string()));
}
