//! The repositories of an organization come in types of their own; they hold
//! the same fields as those of a user, and are turned into them here, so that
//! one function collects the statistics of both.
use vstd::prelude::*;

use crate::github_queries::organization_repos_query as org;
use crate::github_queries::user_repos_query as user;

verus! {

/// The same kind of owner.
pub open spec fn same_owner_on(a: org::ReposNodesOwnerOn, b: user::ReposNodesOwnerOn) -> bool {
    match (a, b) {
        (org::ReposNodesOwnerOn::Organization, user::ReposNodesOwnerOn::Organization) => true,
        (org::ReposNodesOwnerOn::User, user::ReposNodesOwnerOn::User) => true,
        _ => false,
    }
}

/// The same owner.
pub open spec fn same_owner(a: org::ReposNodesOwner, b: user::ReposNodesOwner) -> bool {
    a.login == b.login && same_owner_on(a.on, b.on)
}

/// The same license.
pub open spec fn same_license(a: org::ReposNodesLicenseInfo, b: user::ReposNodesLicenseInfo) -> bool {
    a.nickname == b.nickname && a.spdx_id == b.spdx_id && a.name == b.name
}

/// The same language size.
pub open spec fn same_edge(a: org::ReposNodesLanguagesEdges, b: user::ReposNodesLanguagesEdges) -> bool {
    a.size == b.size
}

/// The same language.
pub open spec fn same_language(a: org::ReposNodesLanguagesNodes, b: user::ReposNodesLanguagesNodes) -> bool {
    a.color == b.color && a.name == b.name
}

/// The same list of language sizes, gaps in the same places.
pub open spec fn same_edges(
    a: Option<Vec<Option<org::ReposNodesLanguagesEdges>>>,
    b: Option<Vec<Option<user::ReposNodesLanguagesEdges>>>,
) -> bool {
    match (a, b) {
        (None, None) => true,
        (Some(x), Some(y)) => x@.len() == y@.len() && forall|i: int| 0 <= i < x@.len() ==>
            match (#[trigger] x@[i], y@[i]) {
                (None, None) => true,
                (Some(p), Some(q)) => same_edge(p, q),
                _ => false,
            },
        _ => false,
    }
}

/// The same list of languages, gaps in the same places.
pub open spec fn same_languages_list(
    a: Option<Vec<Option<org::ReposNodesLanguagesNodes>>>,
    b: Option<Vec<Option<user::ReposNodesLanguagesNodes>>>,
) -> bool {
    match (a, b) {
        (None, None) => true,
        (Some(x), Some(y)) => x@.len() == y@.len() && forall|i: int| 0 <= i < x@.len() ==>
            match (#[trigger] x@[i], y@[i]) {
                (None, None) => true,
                (Some(p), Some(q)) => same_language(p, q),
                _ => false,
            },
        _ => false,
    }
}

/// The same languages and sizes.
pub open spec fn same_languages(a: org::ReposNodesLanguages, b: user::ReposNodesLanguages) -> bool {
    same_edges(a.edges, b.edges) && same_languages_list(a.nodes, b.nodes) && a.total_size == b.total_size
}

/// The same commit.
pub open spec fn same_commit(
    a: org::ReposNodesDefaultBranchRefTargetOnCommitHistoryNodes,
    b: user::ReposNodesDefaultBranchRefTargetOnCommitHistoryNodes,
) -> bool {
    a.committed_date == b.committed_date
}

/// The same history, gaps in the same places.
pub open spec fn same_history(
    a: org::ReposNodesDefaultBranchRefTargetOnCommitHistory,
    b: user::ReposNodesDefaultBranchRefTargetOnCommitHistory,
) -> bool {
    match (a.nodes, b.nodes) {
        (None, None) => true,
        (Some(x), Some(y)) => x@.len() == y@.len() && forall|i: int| 0 <= i < x@.len() ==>
            match (#[trigger] x@[i], y@[i]) {
                (None, None) => true,
                (Some(p), Some(q)) => same_commit(p, q),
                _ => false,
            },
        _ => false,
    }
}

/// The same object at the head of the branch.
pub open spec fn same_target(a: org::ReposNodesDefaultBranchRefTarget, b: user::ReposNodesDefaultBranchRefTarget) -> bool {
    match (a, b) {
        (org::ReposNodesDefaultBranchRefTarget::Blob, user::ReposNodesDefaultBranchRefTarget::Blob) => true,
        (org::ReposNodesDefaultBranchRefTarget::Commit(c), user::ReposNodesDefaultBranchRefTarget::Commit(d)) =>
            same_history(c.history, d.history),
        (org::ReposNodesDefaultBranchRefTarget::Tag, user::ReposNodesDefaultBranchRefTarget::Tag) => true,
        (org::ReposNodesDefaultBranchRefTarget::Tree, user::ReposNodesDefaultBranchRefTarget::Tree) => true,
        _ => false,
    }
}

/// The same default branch.
pub open spec fn same_branch(a: org::ReposNodesDefaultBranchRef, b: user::ReposNodesDefaultBranchRef) -> bool {
    match (a.target, b.target) {
        (None, None) => true,
        (Some(x), Some(y)) => same_target(x, y),
        _ => false,
    }
}

/// The same repository: every field holds the same value.
pub open spec fn same_repo(a: org::ReposNodes, b: user::ReposNodes) -> bool {
    &&& a.created_at == b.created_at
    &&& match (a.default_branch_ref, b.default_branch_ref) {
        (None, None) => true,
        (Some(x), Some(y)) => same_branch(x, y),
        _ => false,
    }
    &&& a.fork_count == b.fork_count
    &&& a.is_archived == b.is_archived
    &&& a.is_disabled == b.is_disabled
    &&& a.is_empty == b.is_empty
    &&& a.is_fork == b.is_fork
    &&& a.is_mirror == b.is_mirror
    &&& a.is_private == b.is_private
    &&& a.name_with_owner == b.name_with_owner
    &&& match (a.languages, b.languages) {
        (None, None) => true,
        (Some(x), Some(y)) => same_languages(x, y),
        _ => false,
    }
    &&& match (a.license_info, b.license_info) {
        (None, None) => true,
        (Some(x), Some(y)) => same_license(x, y),
        _ => false,
    }
    &&& same_owner(a.owner, b.owner)
    &&& a.stargazer_count == b.stargazer_count
    &&& a.url == b.url
}

impl user::ReposNodesOwnerOn {
    /// The same kind of owner.
    pub fn from(on: org::ReposNodesOwnerOn) -> (r: Self)
        ensures
            same_owner_on(on, r),
    {
        match on {
            org::ReposNodesOwnerOn::Organization => user::ReposNodesOwnerOn::Organization,
            org::ReposNodesOwnerOn::User => user::ReposNodesOwnerOn::User,
        }
    }
}

impl user::ReposNodesOwner {
    /// The same owner.
    pub fn from(owner: org::ReposNodesOwner) -> (r: Self)
        ensures
            same_owner(owner, r),
    {
        Self { login: owner.login, on: user::ReposNodesOwnerOn::from(owner.on) }
    }
}

impl user::ReposNodesLicenseInfo {
    /// The same license.
    pub fn from(license: org::ReposNodesLicenseInfo) -> (r: Self)
        ensures
            same_license(license, r),
    {
        Self { name: license.name, nickname: license.nickname, spdx_id: license.spdx_id }
    }
}

impl user::ReposNodesLanguagesEdges {
    /// The same language size.
    pub fn from(edges: org::ReposNodesLanguagesEdges) -> (r: Self)
        ensures
            same_edge(edges, r),
    {
        Self { size: edges.size }
    }
}

impl user::ReposNodesLanguagesNodes {
    /// The same language.
    pub fn from(nodes: org::ReposNodesLanguagesNodes) -> (r: Self)
        ensures
            same_language(nodes, r),
    {
        Self { color: nodes.color, name: nodes.name }
    }
}

impl user::ReposNodesLanguages {
    /// The same languages and sizes.
    pub fn from(langs: org::ReposNodesLanguages) -> (r: Self)
        ensures
            same_languages(langs, r),
    {
        let ghost a = langs;
        let edges = match langs.edges {
            None => None,
            Some(ve) => {
                let n = ve.len();
                let mut rest = ve;
                let mut out: Vec<Option<user::ReposNodesLanguagesEdges>> = Vec::new();
                for i in 0..n
                    invariant
                        a.edges is Some,
                        n == a.edges->0@.len(),
                        rest@ == a.edges->0@.skip(i as int),
                        out@.len() == i,
                        forall|j: int| 0 <= j < i ==> match (#[trigger] a.edges->0@[j], out@[j]) {
                            (None, None) => true,
                            (Some(p), Some(q)) => same_edge(p, q),
                            _ => false,
                        },
                {
                    let e = rest.remove(0);
                    assert(e == a.edges->0@[i as int]);
                    let c = match e {
                        Some(e) => Some(user::ReposNodesLanguagesEdges::from(e)),
                        None => None,
                    };
                    out.push(c);
                    assert(rest@ =~= a.edges->0@.skip(i + 1));
                }
                Some(out)
            },
        };
        let nodes = match langs.nodes {
            None => None,
            Some(vn) => {
                let n = vn.len();
                let mut rest = vn;
                let mut out: Vec<Option<user::ReposNodesLanguagesNodes>> = Vec::new();
                for i in 0..n
                    invariant
                        a.nodes is Some,
                        n == a.nodes->0@.len(),
                        rest@ == a.nodes->0@.skip(i as int),
                        out@.len() == i,
                        forall|j: int| 0 <= j < i ==> match (#[trigger] a.nodes->0@[j], out@[j]) {
                            (None, None) => true,
                            (Some(p), Some(q)) => same_language(p, q),
                            _ => false,
                        },
                {
                    let e = rest.remove(0);
                    assert(e == a.nodes->0@[i as int]);
                    let c = match e {
                        Some(e) => Some(user::ReposNodesLanguagesNodes::from(e)),
                        None => None,
                    };
                    out.push(c);
                    assert(rest@ =~= a.nodes->0@.skip(i + 1));
                }
                Some(out)
            },
        };
        Self { edges, nodes, total_size: langs.total_size }
    }
}

impl user::ReposNodesDefaultBranchRefTargetOnCommitHistoryNodes {
    /// The same commit.
    pub fn from(nodes: org::ReposNodesDefaultBranchRefTargetOnCommitHistoryNodes) -> (r: Self)
        ensures
            same_commit(nodes, r),
    {
        Self { committed_date: nodes.committed_date }
    }
}

impl user::ReposNodesDefaultBranchRefTargetOnCommitHistory {
    /// The same history.
    pub fn from(history: org::ReposNodesDefaultBranchRefTargetOnCommitHistory) -> (r: Self)
        ensures
            same_history(history, r),
    {
        let ghost a = history;
        let nodes = match history.nodes {
            None => None,
            Some(vn) => {
                let n = vn.len();
                let mut rest = vn;
                let mut out: Vec<Option<user::ReposNodesDefaultBranchRefTargetOnCommitHistoryNodes>> = Vec::new();
                for i in 0..n
                    invariant
                        a.nodes is Some,
                        n == a.nodes->0@.len(),
                        rest@ == a.nodes->0@.skip(i as int),
                        out@.len() == i,
                        forall|j: int| 0 <= j < i ==> match (#[trigger] a.nodes->0@[j], out@[j]) {
                            (None, None) => true,
                            (Some(p), Some(q)) => same_commit(p, q),
                            _ => false,
                        },
                {
                    let e = rest.remove(0);
                    assert(e == a.nodes->0@[i as int]);
                    let c = match e {
                        Some(e) => Some(user::ReposNodesDefaultBranchRefTargetOnCommitHistoryNodes::from(e)),
                        None => None,
                    };
                    out.push(c);
                    assert(rest@ =~= a.nodes->0@.skip(i + 1));
                }
                Some(out)
            },
        };
        Self { nodes }
    }
}

impl user::ReposNodesDefaultBranchRefTarget {
    /// The same object at the head of the branch.
    pub fn from(target: org::ReposNodesDefaultBranchRefTarget) -> (r: Self)
        ensures
            same_target(target, r),
    {
        match target {
            org::ReposNodesDefaultBranchRefTarget::Blob => user::ReposNodesDefaultBranchRefTarget::Blob,
            org::ReposNodesDefaultBranchRefTarget::Commit(c) => user::ReposNodesDefaultBranchRefTarget::Commit(
                user::ReposNodesDefaultBranchRefTargetOnCommit {
                    history: user::ReposNodesDefaultBranchRefTargetOnCommitHistory::from(c.history),
                },
            ),
            org::ReposNodesDefaultBranchRefTarget::Tag => user::ReposNodesDefaultBranchRefTarget::Tag,
            org::ReposNodesDefaultBranchRefTarget::Tree => user::ReposNodesDefaultBranchRefTarget::Tree,
        }
    }
}

impl user::ReposNodesDefaultBranchRef {
    /// The same default branch.
    pub fn from(ref_: org::ReposNodesDefaultBranchRef) -> (r: Self)
        ensures
            same_branch(ref_, r),
    {
        let target = match ref_.target {
            Some(t) => Some(user::ReposNodesDefaultBranchRefTarget::from(t)),
            None => None,
        };
        Self { target }
    }
}

impl user::ReposNodes {
    /// The same repository, field by field.
    pub fn from(repo: org::ReposNodes) -> (r: Self)
        ensures
            same_repo(repo, r),
    {
        let default_branch_ref = match repo.default_branch_ref {
            Some(d) => Some(user::ReposNodesDefaultBranchRef::from(d)),
            None => None,
        };
        let languages = match repo.languages {
            Some(l) => Some(user::ReposNodesLanguages::from(l)),
            None => None,
        };
        let license_info = match repo.license_info {
            Some(l) => Some(user::ReposNodesLicenseInfo::from(l)),
            None => None,
        };
        Self {
            created_at: repo.created_at,
            default_branch_ref,
            fork_count: repo.fork_count,
            is_archived: repo.is_archived,
            is_disabled: repo.is_disabled,
            is_empty: repo.is_empty,
            is_fork: repo.is_fork,
            is_mirror: repo.is_mirror,
            is_private: repo.is_private,
            name_with_owner: repo.name_with_owner,
            languages,
            license_info,
            owner: user::ReposNodesOwner::from(repo.owner),
            stargazer_count: repo.stargazer_count,
            url: repo.url,
        }
    }
}

} // verus!
