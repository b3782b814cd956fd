use awesomelify::strutil::{
    find_char_from, split_str, starts_with_str, str_cmp, str_eq, trim_ws, u64_to_string,
};
use awesomelify::loader::{entry_is_fresh, CacheEntry};
use awesomelify::source::{FullReadmeRepo, ReadmeRepo, RepoDetails, RepoIdent};
use std::cmp::Ordering;

#[test]
fn string_comparison() {
    assert_eq!(str_cmp("a", "b"), Ordering::Less);
    assert_eq!(str_cmp("b", "a"), Ordering::Greater);
    assert_eq!(str_cmp("abc", "abc"), Ordering::Equal);
    assert_eq!(str_cmp("ab", "abc"), Ordering::Less);
    assert_eq!(str_cmp("abd", "abc"), Ordering::Greater);
    assert_eq!(str_cmp("", ""), Ordering::Equal);
    assert_eq!(str_cmp("", "a"), Ordering::Less);
    assert!(str_eq("same", "same"));
    assert!(!str_eq("same", "Same"));
}

#[test]
fn string_trim_and_search() {
    assert_eq!(trim_ws("  hello \t\r\n"), "hello");
    assert_eq!(trim_ws("hello"), "hello");
    assert_eq!(trim_ws(" \t "), "");
    assert_eq!(find_char_from("a/b/c", 0, '/'), Some(1));
    assert_eq!(find_char_from("a/b/c", 2, '/'), Some(3));
    assert_eq!(find_char_from("a/b/c", 4, '/'), None);
    assert!(starts_with_str("github.com/a/b", "github.com/"));
    assert!(!starts_with_str("github", "github.com/"));
}

#[test]
fn string_split() {
    assert_eq!(split_str("/a/b", '/'), vec!["", "a", "b"]);
    assert_eq!(split_str("a", '/'), vec!["a"]);
    assert_eq!(split_str("", '/'), vec![""]);
    assert_eq!(split_str("a//b/", '/'), vec!["a", "", "b", ""]);
}

#[test]
fn decimal_rendering() {
    assert_eq!(u64_to_string(0), "0");
    assert_eq!(u64_to_string(7), "7");
    assert_eq!(u64_to_string(42), "42");
    assert_eq!(u64_to_string(9007), "9007");
    assert_eq!(u64_to_string(u64::MAX), "18446744073709551615");
}

#[test]
fn freshness_at_extreme_times() {
    let full = FullReadmeRepo {
        repo: ReadmeRepo {
            details: RepoDetails {
                ident: RepoIdent::new_github("o", "r"),
                description: None,
                last_pushed_at: None,
                total_pull_requests: 0,
                stargazer_count: 0,
                fork_count: 0,
                issues: 0,
                last_pullrequest_merged_at: None,
                primary_language: None,
                languages: Vec::new(),
                updated_at: 0,
            },
            readme_content: String::new(),
            repo_links: Vec::new(),
            updated_at: 0,
        },
        links: Vec::new(),
        not_found: Vec::new(),
    };
    let entry = |at: i64| CacheEntry { data: full.clone(), inserted_at: at };
    // no overflow at the ends of the timestamp range
    assert!(!entry_is_fresh(&entry(i64::MIN), i64::MAX, u64::MAX - 1));
    assert!(entry_is_fresh(&entry(i64::MAX), i64::MIN, 1));
    assert!(entry_is_fresh(&entry(5), 5, 1));
}
