//! A small library for summarising a user's recently merged pull requests.
//!
//! Raw issue records, as an issue-search endpoint returns them, are filtered
//! down to pull requests that are closed and authored outside the user's own
//! repositories, then normalised into [`PullRequest`] records for display.
//! The transport that fetches the raw records lives outside this library;
//! everything here is a pure function of its inputs.

use vstd::prelude::*;
use vstd::string::StringExecFns;

pub mod pulls;
pub mod text;

verus! {

/// The two-valued classification of a normalised record.
#[derive(Debug, PartialEq, Eq)]
pub enum State {
    Open,
    Closed,
}

/// A normalised, display-ready pull-request record.
#[derive(Debug, PartialEq, Eq)]
pub struct PullRequest {
    pub title: String,
    pub body: String,
    pub project: String,
    pub html_url: String,
    pub state: State,
    pub closed_at: String,
}

/// A raw record from the issue-search endpoint. A record represents either a
/// plain issue or, when `pull_request` is set, a pull request.
#[derive(Debug, PartialEq, Eq)]
pub struct Issue {
    pub url: String,
    pub html_url: String,
    pub title: String,
    pub body: Option<String>,
    pub state: String,
    pub closed_at: Option<String>,
    pub pull_request: bool,
}

/// How normalising a raw record can fail.
#[derive(Debug, PartialEq, Eq)]
pub enum Error {
    /// The record's textual state was neither `"open"` nor `"closed"`;
    /// the offending value is carried along.
    UnknownState(String),
    /// The record's web URL has too few `/`-separated segments to name a
    /// project.
    ProjectSegmentMissing,
}

/// The filter's acceptance condition: the web URL does not mention the
/// username, the record is a pull request, and its state is not `"open"`.
pub open spec fn merged_pull_request(
    html_url: Seq<char>,
    has_pull_request: bool,
    state: Seq<char>,
    username: Seq<char>,
) -> bool {
    &&& !text::contains_seq(html_url, username)
    &&& has_pull_request
    &&& state != "open"@
}

/// Whether `issue` is a pull request authored outside the user's own
/// repositories and no longer open. The username check is a plain substring
/// test on the web URL, deliberately coarse.
pub fn is_merged_pull_request(issue: &Issue, username: &str) -> (r: bool)
    ensures
        r == merged_pull_request(issue.html_url@, issue.pull_request, issue.state@, username@),
{
    !text::contains_str(issue.html_url.as_str(), username) && issue.pull_request && !text::str_eq(
        issue.state.as_str(),
        "open",
    )
}

/// The project name in a canonical web URL: the fifth `/`-separated segment,
/// which for `https://host/owner/project/...` is the repository name.
///
/// Returns [`Error::ProjectSegmentMissing`] exactly when the URL has fewer
/// than five segments.
pub fn project_name_from_url(url: &str) -> (r: Result<&str, Error>)
    ensures
        match r {
            Ok(p) => text::split_slash(url@).len() > 4 && p@ == text::split_slash(url@)[4],
            Err(e) => text::split_slash(url@).len() <= 4 && e == Error::ProjectSegmentMissing,
        },
{
    match text::nth_segment(url, 4) {
        Some(seg) => Ok(seg),
        None => Err(Error::ProjectSegmentMissing),
    }
}

/// An issue whose web URL contains the username is never kept, whatever its
/// other fields say.
pub proof fn lemma_username_in_url_excluded(
    html_url: Seq<char>,
    has_pull_request: bool,
    state: Seq<char>,
    username: Seq<char>,
)
    requires
        text::contains_seq(html_url, username),
    ensures
        !merged_pull_request(html_url, has_pull_request, state, username),
{
}

/// An issue without a pull-request marker is never kept, whatever its other
/// fields say.
pub proof fn lemma_plain_issue_excluded(
    html_url: Seq<char>,
    state: Seq<char>,
    username: Seq<char>,
)
    ensures
        !merged_pull_request(html_url, false, state, username),
{
}

/// An issue whose state is exactly `"open"` is never kept, whatever its other
/// fields say.
pub proof fn lemma_open_state_excluded(
    html_url: Seq<char>,
    has_pull_request: bool,
    username: Seq<char>,
)
    ensures
        !merged_pull_request(html_url, has_pull_request, "open"@, username),
{
}

/// The filter accepts exactly when all three conditions hold at once:
/// username exclusion, pull-request marker, and a state other than `"open"`.
pub proof fn lemma_merged_pull_request_characterised(
    html_url: Seq<char>,
    has_pull_request: bool,
    state: Seq<char>,
    username: Seq<char>,
)
    ensures
        merged_pull_request(html_url, has_pull_request, state, username) <==> (
        !text::contains_seq(html_url, username) && has_pull_request && state != "open"@),
{
}

/// The number of records returned when no usable limit is configured.
pub const DEFAULT_LIMIT: u64 = 20;

/// The result limit taken from an optional configuration value: the value
/// read as an unsigned numeral, or [`DEFAULT_LIMIT`] when the value is absent,
/// malformed, or too large for a `u64`.
pub fn limit_or_default(value: Option<&str>) -> (r: u64)
    ensures
        match value {
            Some(v) => if text::parses_as_u64(v@) {
                r == text::dec_value(text::unsigned_body(v@))
            } else {
                r == DEFAULT_LIMIT
            },
            None => r == DEFAULT_LIMIT,
        },
{
    match value {
        Some(v) => match text::parse_u64(v) {
            Some(n) => n,
            None => DEFAULT_LIMIT,
        },
        None => DEFAULT_LIMIT,
    }
}

/// The search query for issues authored by `username`.
pub fn search_query(username: &str) -> (q: String)
    ensures
        q@ == "author:"@ + username@,
{
    let prefix = String::from_str("author:");
    prefix.concat(username)
}

/// An [`Issue`] with the given web URL, state and pull-request marker, and
/// every other field empty or absent.
pub fn build_issues_item(html_url: String, state: String, pull_request: bool) -> (r: Issue)
    ensures
        r.html_url == html_url,
        r.state == state,
        r.pull_request == pull_request,
        r.url@ == Seq::<char>::empty(),
        r.title@ == Seq::<char>::empty(),
        r.body is None,
        r.closed_at is None,
{
    Issue {
        url: String::new(),
        html_url,
        title: String::new(),
        body: None,
        state,
        closed_at: None,
        pull_request,
    }
}

} // verus!
