use prs::pulls::{parse_issue_item, pull_requests_from};
use prs::{build_issues_item, project_name_from_url, Error, Issue, PullRequest, State};

#[test]
fn parse_pr_with_incorrect_state() {
    let res = build_issues_item(String::new(), String::from("foo"), true);
    assert_eq!(
        parse_issue_item(res),
        Err(Error::UnknownState(String::from("foo")))
    );
}

#[test]
fn parse_pr_with_incorrect_html_url() {
    let res = build_issues_item(String::new(), String::from("open"), true);
    assert_eq!(parse_issue_item(res), Err(Error::ProjectSegmentMissing));
}

#[test]
fn parse_pr_with_correct_data() {
    let res = build_issues_item(
        String::from("https://github.com/softprops/hubcaps/pull/245"),
        String::from("open"),
        true,
    );
    assert_eq!(
        parse_issue_item(res),
        Ok(PullRequest {
            title: String::new(),
            body: String::new(),
            project: String::from("hubcaps"),
            html_url: String::from("https://github.com/softprops/hubcaps/pull/245"),
            state: State::Open,
            closed_at: String::new(),
        })
    );
}

#[test]
fn parse_pr_with_closed_state_and_full_fields() {
    let issue = Issue {
        url: String::from("https://api.github.com/repos/acme/widget/issues/7"),
        html_url: String::from("https://github.com/acme/widget/pull/7"),
        title: String::from("Fix the widget"),
        body: Some(String::from("A fix.")),
        state: String::from("closed"),
        closed_at: Some(String::from("2019-05-01T00:00:00Z")),
        pull_request: true,
    };
    assert_eq!(
        parse_issue_item(issue),
        Ok(PullRequest {
            title: String::from("Fix the widget"),
            body: String::from("A fix."),
            project: String::from("widget"),
            html_url: String::from("https://github.com/acme/widget/pull/7"),
            state: State::Closed,
            closed_at: String::from("2019-05-01T00:00:00Z"),
        })
    );
}

#[test]
fn parse_defaults_absent_body_and_closed_at_to_empty() {
    let issue = build_issues_item(
        String::from("https://github.com/softprops/hubcaps/pull/245"),
        String::from("closed"),
        true,
    );
    assert!(issue.body.is_none());
    assert!(issue.closed_at.is_none());
    let pr = parse_issue_item(issue).unwrap();
    assert_eq!(pr.body, "");
    assert_eq!(pr.closed_at, "");
}

#[test]
fn project_name_from_canonical_url() {
    assert_eq!(
        project_name_from_url("https://github.com/softprops/hubcaps/pull/245"),
        Ok("hubcaps")
    );
}

#[test]
fn project_name_from_empty_url_fails() {
    assert_eq!(
        project_name_from_url(""),
        Err(Error::ProjectSegmentMissing)
    );
}

#[test]
fn project_name_from_short_url_fails() {
    assert_eq!(
        project_name_from_url("https://github.com/softprops"),
        Err(Error::ProjectSegmentMissing)
    );
}

#[test]
fn pull_requests_from_keeps_only_foreign_closed_prs() {
    let accepted = build_issues_item(
        String::from("https://github.com/softprops/hubcaps/pull/245"),
        String::from("closed"),
        true,
    );
    let own = build_issues_item(
        String::from("https://github.com/lola/lolas-project/pull/245"),
        String::from("closed"),
        true,
    );
    let open = build_issues_item(
        String::from("https://github.com/softprops/hubcaps/pull/300"),
        String::from("open"),
        true,
    );
    let plain = build_issues_item(
        String::from("https://github.com/softprops/hubcaps/issues/12"),
        String::from("closed"),
        false,
    );
    let out = pull_requests_from(vec![accepted, own, open, plain], "lola", 20).unwrap();
    assert_eq!(out.len(), 1);
    assert_eq!(out[0].project, "hubcaps");
    assert_eq!(
        out[0].html_url,
        "https://github.com/softprops/hubcaps/pull/245"
    );
    assert_eq!(out[0].state, State::Closed);
}

#[test]
fn pull_requests_from_truncates_to_limit_in_order() {
    let first = build_issues_item(
        String::from("https://github.com/acme/alpha/pull/1"),
        String::from("closed"),
        true,
    );
    let second = build_issues_item(
        String::from("https://github.com/acme/beta/pull/2"),
        String::from("closed"),
        true,
    );
    let third = build_issues_item(
        String::from("https://github.com/acme/gamma/pull/3"),
        String::from("closed"),
        true,
    );
    let out = pull_requests_from(vec![first, second, third], "lola", 2).unwrap();
    assert_eq!(out.len(), 2);
    assert_eq!(out[0].project, "alpha");
    assert_eq!(out[1].project, "beta");
}

#[test]
fn pull_requests_from_reports_first_bad_record() {
    let good = build_issues_item(
        String::from("https://github.com/acme/alpha/pull/1"),
        String::from("closed"),
        true,
    );
    let bad = build_issues_item(
        String::from("https://github.com/acme/beta/pull/2"),
        String::from("merged"),
        true,
    );
    let out = pull_requests_from(vec![good, bad], "lola", 20);
    assert_eq!(out, Err(Error::UnknownState(String::from("merged"))));
}

#[test]
fn pull_requests_from_skips_rejected_bad_records() {
    let bad_but_own = build_issues_item(
        String::from("https://github.com/lola/alpha/pull/1"),
        String::from("weird"),
        true,
    );
    let good = build_issues_item(
        String::from("https://github.com/acme/beta/pull/2"),
        String::from("closed"),
        true,
    );
    let out = pull_requests_from(vec![bad_but_own, good], "lola", 20).unwrap();
    assert_eq!(out.len(), 1);
    assert_eq!(out[0].project, "beta");
}
