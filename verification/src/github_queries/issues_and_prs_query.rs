//! The response of the issues and pull requests query.
use vstd::prelude::*;

verus! {

/// The query takes no variables.
pub struct Variables;

/// The four counts that the query asks for.
pub struct ResponseData {
    pub issues_created: IssuesAndPrsQueryIssuesCreated,
    pub issues_closed: IssuesAndPrsQueryIssuesClosed,
    pub prs_created: IssuesAndPrsQueryPrsCreated,
    pub prs_merged: IssuesAndPrsQueryPrsMerged,
}

/// The number of issues the user created.
pub struct IssuesAndPrsQueryIssuesCreated {
    pub issue_count: i64,
}

/// The number of issues the user created that are closed.
pub struct IssuesAndPrsQueryIssuesClosed {
    pub issue_count: i64,
}

/// The number of pull requests the user created.
pub struct IssuesAndPrsQueryPrsCreated {
    pub issue_count: i64,
}

/// The number of pull requests the user created that were merged.
pub struct IssuesAndPrsQueryPrsMerged {
    pub issue_count: i64,
}

} // verus!
