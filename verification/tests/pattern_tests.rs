use watch_uploader::config::{
    default_common_tags, default_upload_existing, default_use_regex, Config, WatchDirectory,
};
use watch_uploader::path_match::{is_path_match, split_pattern};
use watch_uploader::tags::TagMap;
use watch_uploader::text::{bytes_eq, ends_with, find_from, matches_at, starts_with, str_eq};

fn rule(dir: &str, tag: &str) -> WatchDirectory {
    WatchDirectory { dir: dir.to_string(), tag: tag.to_string() }
}

fn config(rules: Vec<WatchDirectory>, use_regex: bool) -> Config {
    Config {
        watch_dir: rules,
        use_regex,
        upload_existing: true,
        s3_bucket: "bucket".to_string(),
        s3_region: "region".to_string(),
        s3_access_key_id: "id".to_string(),
        s3_secret_access_key: "key".to_string(),
        s3_url: "http://localhost:9000".to_string(),
        max_image_size: 5_000_000,
        min_image_size: 1000,
        common_tags: TagMap::new(),
    }
}

#[test]
fn pattern_without_wildcard_matches_only_itself() {
    assert!(is_path_match("/data/incoming", &["/data/incoming"]));
    assert!(!is_path_match("/data/incoming/more", &["/data/incoming"]));
    assert!(!is_path_match("/data/incomin", &["/data/incoming"]));
    assert!(!is_path_match("x/data/incoming", &["/data/incoming"]));
    assert!(is_path_match("", &[""]));
    assert!(!is_path_match("a", &[""]));
}

#[test]
fn pattern_with_one_wildcard_is_prefix_and_suffix() {
    let parts = ["/data/", "/incoming"];
    assert!(is_path_match("/data/site7/incoming", &parts));
    assert!(is_path_match("/data//incoming", &parts));
    assert!(is_path_match("/data/a/b/c/incoming", &parts));
    assert!(!is_path_match("/data/site7/incoming/", &parts));
    assert!(!is_path_match("/dat/site7/incoming", &parts));
    assert!(!is_path_match("/data/incoming", &parts));
}

#[test]
fn prefix_and_suffix_may_not_overlap() {
    assert!(is_path_match("aa", &["a", "a"]));
    assert!(!is_path_match("a", &["a", "a"]));
    assert!(is_path_match("abab", &["ab", "ab"]));
    assert!(!is_path_match("aba", &["ab", "ba"]));
    assert!(is_path_match("abba", &["ab", "ba"]));
}

#[test]
fn pattern_with_two_wildcards() {
    let parts = ["A", "B", "C"];
    assert!(is_path_match("AxByC", &parts));
    assert!(!is_path_match("AxByZ", &parts));
    assert!(is_path_match("ABC", &parts));
    assert!(!is_path_match("AC", &parts));
    assert!(!is_path_match("AxCyB", &parts));
    assert!(is_path_match("AxByBzC", &parts));
}

#[test]
fn middle_part_is_taken_at_its_first_occurrence() {
    assert!(is_path_match("a-b-b-c", &["a", "b", "c"]));
    assert!(is_path_match("a-bc", &["a", "b", "c"]));
    assert!(!is_path_match("a-cb", &["a", "b", "cb"]));
    assert!(is_path_match("abcb", &["a", "b", "cb"]));
    assert!(!is_path_match("ab", &["a", "b", "b"]));
    assert!(is_path_match("abb", &["a", "b", "b"]));
    assert!(is_path_match("/x/1/y/2/z/3", &["/x/", "/y/", "/z/", "3"]));
    assert!(!is_path_match("/x/1/z/2/y/3", &["/x/", "/y/", "/z/", "3"]));
}

#[test]
fn empty_parts_consume_nothing() {
    assert!(is_path_match("a/b", &["a", "", "b"]));
    assert!(is_path_match("ab", &["a", "", "b"]));
    assert!(!is_path_match("a", &["a", "", "b"]));
    assert!(is_path_match("/data/anything", &["/data/", ""]));
    assert!(is_path_match("/data/", &["/data/", ""]));
    assert!(!is_path_match("/dat", &["/data/", ""]));
    assert!(is_path_match("x/incoming", &["", "/incoming"]));
    assert!(is_path_match("anything", &["", ""]));
    assert!(is_path_match("", &["", ""]));
    assert!(is_path_match("", &["", "", ""]));
}

#[test]
fn no_parts_match_every_path() {
    assert!(is_path_match("", &[]));
    assert!(is_path_match("/any/path", &[]));
}

#[test]
fn paths_beyond_ascii_match_by_their_bytes() {
    assert!(is_path_match("/données/été/entrée", &["/données/", "/entrée"]));
    assert!(!is_path_match("/donnees/été/entrée", &["/données/", "/entrée"]));
    assert!(is_path_match("/写真/2024/受信", &["/写真/", "/受信"]));
    assert!(is_path_match("/写真/受信", &["/写真/受信"]));
    assert!(!is_path_match("/写真/受", &["/写真/受信"]));
}

#[test]
fn split_pattern_cuts_at_every_wildcard() {
    assert_eq!(split_pattern("/data/*/incoming"), vec!["/data/", "/incoming"]);
    assert_eq!(split_pattern("/data/incoming"), vec!["/data/incoming"]);
    assert_eq!(split_pattern(""), vec![""]);
    assert_eq!(split_pattern("*"), vec!["", ""]);
    assert_eq!(split_pattern("**"), vec!["", "", ""]);
    assert_eq!(split_pattern("a**b"), vec!["a", "", "b"]);
    assert_eq!(split_pattern("*a"), vec!["", "a"]);
    assert_eq!(split_pattern("a*"), vec!["a", ""]);
    assert_eq!(split_pattern("A*B*C"), vec!["A", "B", "C"]);
    assert_eq!(split_pattern("/写真/*/受信*"), vec!["/写真/", "/受信", ""]);
}

#[test]
fn split_pattern_agrees_with_str_split() {
    for pattern in ["", "*", "a", "a*b", "*a*", "/x/*/y/**", "é*è*", "***"] {
        let expected: Vec<&str> = pattern.split('*').collect();
        assert_eq!(split_pattern(pattern), expected);
    }
}

#[test]
fn split_then_match() {
    let parts = split_pattern("/data/*/incoming");
    assert!(is_path_match("/data/site7/incoming", &parts));
    assert!(!is_path_match("/data/site7/outgoing", &parts));
    let plain = split_pattern("/data/site7/incoming");
    assert!(is_path_match("/data/site7/incoming", &plain));
    assert!(!is_path_match("/data/site7/incoming/deeper", &plain));
}

#[test]
fn tag_of_first_matching_rule_wins() {
    let settings = config(
        vec![rule("/data/*/incoming", "cam1"), rule("/data/*", "other"), rule("/data/x", "x")],
        true,
    );
    assert_eq!(settings.get_tag_for_directory("/data/site7/incoming"), Some("cam1"));
    assert_eq!(settings.get_tag_for_directory("/data/site7"), Some("other"));
    assert_eq!(settings.get_tag_for_directory("/data/x"), Some("other"));
    assert_eq!(settings.get_tag_for_directory("/elsewhere"), None);
}

#[test]
fn without_wildcards_a_rule_fits_letter_for_letter() {
    let settings = config(vec![rule("/data/*/incoming", "star"), rule("/data/x", "x")], false);
    assert_eq!(settings.get_tag_for_directory("/data/site7/incoming"), None);
    assert_eq!(settings.get_tag_for_directory("/data/*/incoming"), Some("star"));
    assert_eq!(settings.get_tag_for_directory("/data/x"), Some("x"));
    assert_eq!(settings.get_tag_for_directory("/data/x/"), None);
}

#[test]
fn with_wildcards_a_plain_rule_still_fits_only_itself() {
    let settings = config(vec![rule("/data/x", "x")], true);
    assert_eq!(settings.get_tag_for_directory("/data/x"), Some("x"));
    assert_eq!(settings.get_tag_for_directory("/data/x/deeper"), None);
    assert_eq!(settings.get_tag_for_directory("/data"), None);
}

#[test]
fn no_rules_no_tag() {
    let settings = config(vec![], true);
    assert_eq!(settings.get_tag_for_directory("/data"), None);
}

#[test]
fn an_empty_tag_is_a_tag() {
    let settings = config(vec![rule("/data", "")], false);
    assert_eq!(settings.get_tag_for_directory("/data"), Some(""));
}

#[test]
fn rule_fits_both_ways() {
    let r = rule("/a/*/b", "t");
    assert!(r.fits("/a/x/b", true));
    assert!(!r.fits("/a/x/b", false));
    assert!(r.fits("/a/*/b", false));
    assert!(r.fits("/a/*/b", true));
}

#[test]
fn defaults() {
    assert!(!default_use_regex());
    assert!(default_upload_existing());
    assert_eq!(default_common_tags().len(), 0);
}

#[test]
fn byte_string_helpers() {
    assert!(starts_with(b"hello", b"he"));
    assert!(starts_with(b"hello", b""));
    assert!(!starts_with(b"he", b"hello"));
    assert!(ends_with(b"hello", b"llo"));
    assert!(ends_with(b"hello", b""));
    assert!(!ends_with(b"hello", b"hell"));
    assert!(bytes_eq(b"abc", b"abc"));
    assert!(!bytes_eq(b"abc", b"abd"));
    assert!(!bytes_eq(b"abc", b"ab"));
    assert!(matches_at(b"abcabc", b"bc", 1));
    assert!(matches_at(b"abcabc", b"bc", 4));
    assert!(!matches_at(b"abcabc", b"bc", 5));
    assert!(matches_at(b"abc", b"", 3));
    assert!(!matches_at(b"abc", b"", 4));
    assert!(str_eq("été", "été"));
    assert!(!str_eq("été", "ete"));
}

#[test]
fn find_from_gives_the_first_occurrence() {
    assert_eq!(find_from(b"abcabc", b"bc", 0), Some(1));
    assert_eq!(find_from(b"abcabc", b"bc", 1), Some(1));
    assert_eq!(find_from(b"abcabc", b"bc", 2), Some(4));
    assert_eq!(find_from(b"abcabc", b"bc", 5), None);
    assert_eq!(find_from(b"abcabc", b"", 3), Some(3));
    assert_eq!(find_from(b"abcabc", b"", 6), Some(6));
    assert_eq!(find_from(b"abcabc", b"", 7), None);
    assert_eq!(find_from(b"abc", b"abcd", 0), None);
    assert_eq!(find_from(b"", b"", 0), Some(0));
    assert_eq!(find_from(b"aaa", b"aa", 1), Some(1));
}
