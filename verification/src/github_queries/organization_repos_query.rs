//! The response of the organization repositories query.
use vstd::prelude::*;

verus! {

/// The variables of the query.
pub struct Variables {
    pub login: String,
    pub email: String,
    pub after: Option<String>,
}

/// One page of repositories.
#[allow(non_camel_case_types)]
pub struct repos {
    pub page_info: ReposPageInfo,
    pub nodes: Option<Vec<Option<ReposNodes>>>,
}

/// Where the next page starts, if there is one.
pub struct ReposPageInfo {
    pub end_cursor: Option<String>,
    pub has_next_page: bool,
}

/// One repository.
pub struct ReposNodes {
    pub created_at: String,
    pub default_branch_ref: Option<ReposNodesDefaultBranchRef>,
    pub fork_count: i64,
    pub is_archived: bool,
    pub is_disabled: bool,
    pub is_empty: bool,
    pub is_fork: bool,
    pub is_mirror: bool,
    pub is_private: bool,
    pub name_with_owner: String,
    pub languages: Option<ReposNodesLanguages>,
    pub license_info: Option<ReposNodesLicenseInfo>,
    pub owner: ReposNodesOwner,
    pub stargazer_count: i64,
    pub url: String,
}

/// The default branch of a repository.
pub struct ReposNodesDefaultBranchRef {
    pub target: Option<ReposNodesDefaultBranchRefTarget>,
}

/// The object the default branch points at.
pub enum ReposNodesDefaultBranchRefTarget {
    Blob,
    Commit(ReposNodesDefaultBranchRefTargetOnCommit),
    Tag,
    Tree,
}

/// A commit at the head of the default branch.
pub struct ReposNodesDefaultBranchRefTargetOnCommit {
    pub history: ReposNodesDefaultBranchRefTargetOnCommitHistory,
}

/// The most recent commits of the default branch.
pub struct ReposNodesDefaultBranchRefTargetOnCommitHistory {
    pub nodes: Option<Vec<Option<ReposNodesDefaultBranchRefTargetOnCommitHistoryNodes>>>,
}

/// One commit of the history.
pub struct ReposNodesDefaultBranchRefTargetOnCommitHistoryNodes {
    pub committed_date: String,
}

/// The languages of a repository: `edges[i].size` bytes of `nodes[i]`.
pub struct ReposNodesLanguages {
    pub edges: Option<Vec<Option<ReposNodesLanguagesEdges>>>,
    pub nodes: Option<Vec<Option<ReposNodesLanguagesNodes>>>,
    pub total_size: i64,
}

/// The size in bytes of one language of a repository.
pub struct ReposNodesLanguagesEdges {
    pub size: i64,
}

/// One language: its name and its color, if GitHub has one for it.
pub struct ReposNodesLanguagesNodes {
    pub color: Option<String>,
    pub name: String,
}

/// The license of a repository.
pub struct ReposNodesLicenseInfo {
    pub nickname: Option<String>,
    pub spdx_id: Option<String>,
    pub name: String,
}

/// The owner of a repository.
pub struct ReposNodesOwner {
    pub login: String,
    pub on: ReposNodesOwnerOn,
}

/// Whether the owner is an organization or a user.
pub enum ReposNodesOwnerOn {
    Organization,
    User,
}

/// The response data of the query.
pub struct ResponseData {
    pub organization: Option<OrganizationReposQueryOrganization>,
}

/// The organization and its repositories.
pub struct OrganizationReposQueryOrganization {
    pub repositories: repos,
}

} // verus!
