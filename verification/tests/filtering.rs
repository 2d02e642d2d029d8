use prs::{build_issues_item, is_merged_pull_request, limit_or_default, search_query, DEFAULT_LIMIT};

#[test]
fn test_is_merged_pull_request() {
    let closed_pr = build_issues_item(
        String::from("https://github.com/softprops/hubcaps/pull/245"),
        String::from("closed"),
        true,
    );
    assert!(is_merged_pull_request(&closed_pr, "lola"));

    let own_pr = build_issues_item(
        String::from("https://github.com/lola/lolas-project/pull/245"),
        String::from("closed"),
        true,
    );
    assert!(!is_merged_pull_request(&own_pr, "lola"));

    let open_pr = build_issues_item(
        String::from("https://github.com/softprops/hubcaps/pull/245"),
        String::from("open"),
        true,
    );
    assert!(!is_merged_pull_request(&open_pr, "lola"));

    let issue = build_issues_item(
        String::from("https://github.com/softprops/hubcaps/pull/245"),
        String::from("closed"),
        false,
    );
    assert!(!is_merged_pull_request(&issue, "lola"));
}

#[test]
fn username_in_url_rejected_even_when_merged() {
    let pr = build_issues_item(
        String::from("https://github.com/acme/lola-tools/pull/9"),
        String::from("closed"),
        true,
    );
    assert!(!is_merged_pull_request(&pr, "lola"));
}

#[test]
fn state_other_than_open_passes_filter() {
    let pr = build_issues_item(
        String::from("https://github.com/acme/widget/pull/9"),
        String::from("merged"),
        true,
    );
    assert!(is_merged_pull_request(&pr, "lola"));
}

#[test]
fn search_query_prefixes_author() {
    assert_eq!(search_query("lola"), "author:lola");
}

#[test]
fn limit_missing_value_defaults() {
    assert_eq!(limit_or_default(None), DEFAULT_LIMIT);
}

#[test]
fn limit_parses_plain_number() {
    assert_eq!(limit_or_default(Some("15")), 15);
}

#[test]
fn limit_parses_leading_plus() {
    assert_eq!(limit_or_default(Some("+7")), 7);
}

#[test]
fn limit_malformed_defaults() {
    assert_eq!(limit_or_default(Some("abc")), DEFAULT_LIMIT);
    assert_eq!(limit_or_default(Some("")), DEFAULT_LIMIT);
    assert_eq!(limit_or_default(Some("-3")), DEFAULT_LIMIT);
    assert_eq!(limit_or_default(Some("12x")), DEFAULT_LIMIT);
}

#[test]
fn limit_too_large_defaults() {
    assert_eq!(limit_or_default(Some("18446744073709551615")), u64::MAX);
    assert_eq!(limit_or_default(Some("18446744073709551616")), DEFAULT_LIMIT);
}
