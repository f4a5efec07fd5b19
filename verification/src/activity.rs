//! My activity on GitHub, and how often a query is tried.
use vstd::prelude::*;

use crate::github_queries::issues_and_prs_query::ResponseData;

verus! {

/// The numbers of issues and pull requests I created, closed and merged.
pub struct IssueAndPrStats {
    pub issues_created: i64,
    pub issues_closed: i64,
    pub prs_created: i64,
    pub prs_merged: i64,
}

impl IssueAndPrStats {
    /// The four counts that GitHub answered.
    pub fn from_response(data: ResponseData) -> (r: IssueAndPrStats)
        ensures
            r.issues_created == data.issues_created.issue_count,
            r.issues_closed == data.issues_closed.issue_count,
            r.prs_created == data.prs_created.issue_count,
            r.prs_merged == data.prs_merged.issue_count,
    {
        IssueAndPrStats {
            issues_created: data.issues_created.issue_count,
            issues_closed: data.issues_closed.issue_count,
            prs_created: data.prs_created.issue_count,
            prs_merged: data.prs_merged.issue_count,
        }
    }
}

/// How many times a repositories query is sent before the program gives up.
pub const QUERY_ATTEMPTS: u32 = 4;

/// What to do after an attempt at a query.
pub enum AttemptStep {
    /// The answer had no errors: use it.
    Accept,
    /// The answer had errors: send the query again, as this attempt.
    Retry(u32),
    /// The answer had errors and no attempt is left.
    GiveUp,
}

/// After attempt `attempt` (counted from 1), whose answer had errors or not.
pub open spec fn attempt_step_spec(attempt: u32, had_errors: bool) -> AttemptStep {
    if !had_errors {
        AttemptStep::Accept
    } else if attempt < QUERY_ATTEMPTS {
        AttemptStep::Retry((attempt + 1) as u32)
    } else {
        AttemptStep::GiveUp
    }
}

/// What to do after attempt `attempt` (counted from 1) at a query.
pub fn attempt_step(attempt: u32, had_errors: bool) -> (r: AttemptStep)
    requires
        1 <= attempt <= QUERY_ATTEMPTS,
    ensures
        r == attempt_step_spec(attempt, had_errors),
{
    if !had_errors {
        AttemptStep::Accept
    } else if attempt < QUERY_ATTEMPTS {
        AttemptStep::Retry(attempt + 1)
    } else {
        AttemptStep::GiveUp
    }
}

} // verus!
