//! The GraphQL queries that the profile generator sends to GitHub, and the
//! shapes of their responses, as plain data.
use vstd::prelude::*;

pub mod issues_and_prs_query;
pub mod organization_repos_query;
pub mod user_contributed_repos_query;
pub mod user_repos_query;

verus! {

/// The query for the public repositories owned by an organization.
pub struct OrganizationReposQuery;

/// The query for the public repositories owned by a user.
pub struct UserReposQuery;

/// The query for the numbers of issues and pull requests a user created.
pub struct IssuesAndPrsQuery;

/// The query for the repositories a user recently contributed to.
pub struct UserContributedReposQuery;

} // verus!
