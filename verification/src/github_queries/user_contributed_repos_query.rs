//! The response of the query for repositories a user contributed to.
use vstd::prelude::*;

verus! {

/// The variables of the query.
pub struct Variables {
    pub login: String,
    pub email: String,
    pub after: Option<String>,
}

/// The response data of the query.
pub struct ResponseData {
    pub user: Option<UserContributedReposQueryUser>,
}

/// The user.
pub struct UserContributedReposQueryUser {
    pub repositories_contributed_to: UserContributedReposQueryUserRepositoriesContributedTo,
}

/// One page of repositories the user contributed to.
pub struct UserContributedReposQueryUserRepositoriesContributedTo {
    pub page_info: UserContributedReposQueryUserRepositoriesContributedToPageInfo,
    pub nodes: Option<Vec<Option<UserContributedReposQueryUserRepositoriesContributedToNodes>>>,
}

/// Where the next page starts, if there is one.
pub struct UserContributedReposQueryUserRepositoriesContributedToPageInfo {
    pub end_cursor: Option<String>,
    pub has_next_page: bool,
}

/// One repository the user contributed to.
pub struct UserContributedReposQueryUserRepositoriesContributedToNodes {
    pub name_with_owner: String,
    pub url: String,
    pub owner: UserContributedReposQueryUserRepositoriesContributedToNodesOwner,
    pub default_branch_ref: Option<UserContributedReposQueryUserRepositoriesContributedToNodesDefaultBranchRef>,
}

/// The owner of the repository.
pub struct UserContributedReposQueryUserRepositoriesContributedToNodesOwner {
    pub login: String,
}

/// The default branch of the repository.
pub struct UserContributedReposQueryUserRepositoriesContributedToNodesDefaultBranchRef {
    pub target: Option<UserContributedReposQueryUserRepositoriesContributedToNodesDefaultBranchRefTarget>,
}

/// The object the default branch points at.
pub enum UserContributedReposQueryUserRepositoriesContributedToNodesDefaultBranchRefTarget {
    Blob,
    Commit(UserContributedReposQueryUserRepositoriesContributedToNodesDefaultBranchRefTargetOnCommit),
    Tag,
    Tree,
}

/// A commit at the head of the default branch.
pub struct UserContributedReposQueryUserRepositoriesContributedToNodesDefaultBranchRefTargetOnCommit {
    pub history: UserContributedReposQueryUserRepositoriesContributedToNodesDefaultBranchRefTargetOnCommitHistory,
}

/// The commits of the default branch that the user authored.
pub struct UserContributedReposQueryUserRepositoriesContributedToNodesDefaultBranchRefTargetOnCommitHistory {
    pub nodes: Option<Vec<Option<UserContributedReposQueryUserRepositoriesContributedToNodesDefaultBranchRefTargetOnCommitHistoryNodes>>>,
}

/// One commit of the history.
pub struct UserContributedReposQueryUserRepositoriesContributedToNodesDefaultBranchRefTargetOnCommitHistoryNodes {
    pub committed_date: String,
}

} // verus!
