//! Normalising raw issue records into [`PullRequest`] records, and the
//! filter-then-normalise pipeline the fetch step runs on a batch of records.

use vstd::prelude::*;

use crate::text;
use crate::Error;
use crate::Issue;
use crate::PullRequest;
use crate::State;

verus! {

/// The textual states a record may carry.
pub open spec fn state_ok(state: Seq<char>) -> bool {
    state == "open"@ || state == "closed"@
}

/// Normalising `issue` succeeds: its state is known and its web URL has a
/// project segment.
pub open spec fn parse_ok(issue: Issue) -> bool {
    state_ok(issue.state@) && text::split_slash(issue.html_url@).len() > 4
}

/// `pr` is the normalisation of `issue`: title and URL copied, state mapped
/// onto the two-valued enumeration, project taken from the URL, and absent
/// body or closed-at replaced by the empty string.
pub open spec fn parsed_matches(issue: Issue, pr: PullRequest) -> bool {
    &&& pr.title@ == issue.title@
    &&& pr.html_url@ == issue.html_url@
    &&& pr.state == (if issue.state@ == "closed"@ {
        State::Closed
    } else {
        State::Open
    })
    &&& pr.project@ == text::split_slash(issue.html_url@)[4]
    &&& pr.body@ == (match issue.body {
        Some(b) => b@,
        None => Seq::<char>::empty(),
    })
    &&& pr.closed_at@ == (match issue.closed_at {
        Some(c) => c@,
        None => Seq::<char>::empty(),
    })
}

/// `e` is the error normalising `issue` owes: an unknown state is reported
/// first, carrying the offending value; otherwise the URL lacked a project
/// segment.
pub open spec fn parse_error_matches(issue: Issue, e: Error) -> bool {
    if !state_ok(issue.state@) {
        e matches Error::UnknownState(s) && s@ == issue.state@
    } else {
        e == Error::ProjectSegmentMissing
    }
}

/// Maps a raw record to its normalised form, or says exactly why it cannot
/// be: an unknown state value, or a web URL without a project segment.
pub fn parse_issue_item(pr: Issue) -> (r: Result<PullRequest, Error>)
    ensures
        r is Ok <==> parse_ok(pr),
        r matches Ok(p) ==> parsed_matches(pr, p),
        r matches Err(e) ==> parse_error_matches(pr, e),
{
    let state = if text::str_eq(pr.state.as_str(), "closed") {
        State::Closed
    } else if text::str_eq(pr.state.as_str(), "open") {
        State::Open
    } else {
        return Err(Error::UnknownState(pr.state));
    };
    let project = match crate::project_name_from_url(pr.html_url.as_str()) {
        Ok(seg) => seg.to_owned(),
        Err(e) => {
            return Err(e);
        },
    };
    let body = match pr.body {
        Some(b) => b,
        None => String::new(),
    };
    let closed_at = match pr.closed_at {
        Some(c) => c,
        None => String::new(),
    };
    Ok(
        PullRequest {
            title: pr.title,
            body,
            project,
            html_url: pr.html_url,
            state,
            closed_at,
        },
    )
}

/// The filter's acceptance condition, on a whole record.
pub open spec fn accepted_issue(issue: Issue, username: Seq<char>) -> bool {
    crate::merged_pull_request(issue.html_url@, issue.pull_request, issue.state@, username)
}

/// The records the pipeline keeps: the accepted ones, in order, cut off after
/// `limit` of them.
pub open spec fn selected(issues: Seq<Issue>, username: Seq<char>, limit: int) -> Seq<Issue>
    decreases issues.len(),
{
    if issues.len() == 0 || limit <= 0 {
        Seq::empty()
    } else if accepted_issue(issues[0], username) {
        seq![issues[0]] + selected(issues.skip(1), username, limit - 1)
    } else {
        selected(issues.skip(1), username, limit)
    }
}

/// Selection can be cut at any position `i`: what is selected overall is what
/// the first `i` records yield, followed by what the rest yield under the
/// remaining limit.
pub proof fn lemma_selected_split(issues: Seq<Issue>, username: Seq<char>, limit: int, i: int)
    requires
        0 <= i <= issues.len(),
    ensures
        selected(issues, username, limit) == selected(issues.take(i), username, limit) + selected(
            issues.skip(i),
            username,
            limit - selected(issues.take(i), username, limit).len(),
        ),
    decreases i,
{
    if i == 0 {
        assert(issues.take(0) =~= Seq::<Issue>::empty());
        assert(issues.skip(0) =~= issues);
        assert(selected(issues, username, limit) =~= Seq::<Issue>::empty() + selected(
            issues,
            username,
            limit,
        ));
    } else {
        let head = issues[0];
        let tail = issues.skip(1);
        assert(issues.take(i).skip(1) =~= tail.take(i - 1));
        assert(issues.skip(i) =~= tail.skip(i - 1));
        if limit <= 0 {
            assert(selected(issues.take(i), username, limit) =~= Seq::<Issue>::empty());
            assert(selected(issues, username, limit) =~= Seq::<Issue>::empty() + selected(
                issues.skip(i),
                username,
                limit - 0,
            ));
        } else if accepted_issue(head, username) {
            lemma_selected_split(tail, username, limit - 1, i - 1);
            assert(selected(issues.take(i), username, limit) == seq![head] + selected(
                tail.take(i - 1),
                username,
                limit - 1,
            ));
            assert(selected(issues, username, limit) =~= selected(issues.take(i), username, limit)
                + selected(
                issues.skip(i),
                username,
                limit - selected(issues.take(i), username, limit).len(),
            ));
        } else {
            lemma_selected_split(tail, username, limit, i - 1);
            assert(selected(issues.take(i), username, limit) == selected(
                tail.take(i - 1),
                username,
                limit,
            ));
            assert(selected(issues, username, limit) =~= selected(issues.take(i), username, limit)
                + selected(
                issues.skip(i),
                username,
                limit - selected(issues.take(i), username, limit).len(),
            ));
        }
    }
}

/// Taking one more record into account extends the selection by that record
/// exactly when it is accepted and the limit is not yet reached.
pub proof fn lemma_selected_step(issues: Seq<Issue>, username: Seq<char>, limit: int, i: int)
    requires
        0 <= i < issues.len(),
    ensures
        selected(issues.take(i + 1), username, limit) == (if accepted_issue(issues[i], username)
            && selected(issues.take(i), username, limit).len() < limit {
            selected(issues.take(i), username, limit).push(issues[i])
        } else {
            selected(issues.take(i), username, limit)
        }),
{
    let prefix = issues.take(i + 1);
    lemma_selected_split(prefix, username, limit, i);
    assert(prefix.take(i) =~= issues.take(i));
    assert(prefix.skip(i) =~= seq![issues[i]]);
    let prev = selected(issues.take(i), username, limit);
    let rest = limit - prev.len();
    let single = seq![issues[i]];
    assert(single.skip(1) =~= Seq::<Issue>::empty());
    assert(selected(single.skip(1), username, rest - 1) == Seq::<Issue>::empty());
    assert(selected(single.skip(1), username, rest) == Seq::<Issue>::empty());
    if accepted_issue(issues[i], username) && rest > 0 {
        assert(selected(single, username, rest) =~= seq![issues[i]]);
        assert(prev + seq![issues[i]] =~= prev.push(issues[i]));
    } else {
        assert(selected(single, username, rest) =~= Seq::<Issue>::empty());
        assert(prev + Seq::<Issue>::empty() =~= prev);
    }
}

/// An owned copy of an optional string, equal to the original.
fn clone_opt_string(v: &Option<String>) -> (r: Option<String>)
    ensures
        r == *v,
{
    match v {
        Some(s) => Some(s.clone()),
        None => None,
    }
}

/// An owned copy of a record, equal to the original.
fn clone_issue(issue: &Issue) -> (r: Issue)
    ensures
        r == *issue,
{
    Issue {
        url: issue.url.clone(),
        html_url: issue.html_url.clone(),
        title: issue.title.clone(),
        body: clone_opt_string(&issue.body),
        state: issue.state.clone(),
        closed_at: clone_opt_string(&issue.closed_at),
        pull_request: issue.pull_request,
    }
}

/// Runs the whole decision pipeline on one batch of raw records: keep the
/// accepted records in order until `limit` of them are found, and normalise
/// each kept record. Fails with the first kept record that cannot be
/// normalised, and succeeds otherwise.
pub fn pull_requests_from(issues: Vec<Issue>, username: &str, limit: u64) -> (r: Result<
    Vec<PullRequest>,
    Error,
>)
    ensures
        ({
            let sel = selected(issues@, username@, limit as int);
            match r {
                Ok(prs) => prs@.len() == sel.len() && (forall|k: int|
                    0 <= k < sel.len() ==> parse_ok(#[trigger] sel[k]) && parsed_matches(
                        sel[k],
                        prs@[k],
                    )),
                Err(e) => exists|k: int|
                    0 <= k < sel.len() && !parse_ok(#[trigger] sel[k]) && (forall|j: int|
                        0 <= j < k ==> parse_ok(#[trigger] sel[j])) && parse_error_matches(
                        sel[k],
                        e,
                    ),
            }
        }),
{
    let mut out: Vec<PullRequest> = Vec::new();
    let mut i: usize = 0;
    while i < issues.len()
        invariant
            i <= issues@.len(),
            out@.len() == selected(issues@.take(i as int), username@, limit as int).len(),
            out@.len() <= limit,
            forall|k: int|
                0 <= k < out@.len() ==> parse_ok(
                    #[trigger] selected(issues@.take(i as int), username@, limit as int)[k],
                ) && parsed_matches(
                    selected(issues@.take(i as int), username@, limit as int)[k],
                    out@[k],
                ),
        decreases issues@.len() - i,
    {
        proof {
            lemma_selected_step(issues@, username@, limit as int, i as int);
        }
        let issue = &issues[i];
        if (out.len() as u64) < limit && crate::is_merged_pull_request(issue, username) {
            let owned = clone_issue(issue);
            match parse_issue_item(owned) {
                Ok(p) => {
                    out.push(p);
                },
                Err(e) => {
                    proof {
                        lemma_selected_split(issues@, username@, limit as int, i + 1);
                        let sel_next = selected(issues@.take(i + 1), username@, limit as int);
                        let sel = selected(issues@, username@, limit as int);
                        assert(sel.len() >= sel_next.len());
                        assert forall|j: int| 0 <= j < sel_next.len() implies sel[j]
                            == sel_next[j] by {}
                        assert(!parse_ok(sel[sel_next.len() - 1]));
                    }
                    return Err(e);
                },
            }
        }
        i += 1;
    }
    proof {
        assert(issues@.take(i as int) =~= issues@);
    }
    Ok(out)
}

} // verus!
