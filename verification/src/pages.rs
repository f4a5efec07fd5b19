//! The decisions between the pages of GitHub's answers: what each page does
//! to the statistics, and whether to ask for the next one.
use vstd::prelude::*;

use crate::convert::same_repo;
use crate::dates::{instant_of, rfc3339_instant, rfc3339_utc_day, utc_day_of, InvalidTimestamp, DATE_FORMAT};
use crate::github_queries::issues_and_prs_query;
use crate::github_queries::organization_repos_query as org;
use crate::github_queries::user_contributed_repos_query::{
    ResponseData as ContributedResponse,
    UserContributedReposQueryUserRepositoriesContributedToNodes as ContributedNode,
    UserContributedReposQueryUserRepositoriesContributedToNodesDefaultBranchRefTarget as ContributedTarget,
};
use crate::github_queries::user_repos_query as user;
use crate::repos::{OneRepo, RepoView};
use crate::stats::{
    collect_user_repo_stats_checked,
    collected_checked,
    lemma_first_missing,
    present,
    stats_after_checked,
    Collected,
    StatsView,
    UserAndRepoStats,
    MY_LOGIN,
    MY_ORG,
};
use crate::text::str_eq;

verus! {

/// What to do after a page: ask for the page after `cursor`, or stop.
pub enum PageStep {
    Fetch(Option<String>),
    Done,
}

/// After a page that says whether another follows, and where.
pub open spec fn next_page(has_next_page: bool, end_cursor: Option<String>) -> PageStep {
    if has_next_page {
        PageStep::Fetch(end_cursor)
    } else {
        PageStep::Done
    }
}

/// The statistics with the account's creation time, if they had none yet.
pub open spec fn with_created_at(s: StatsView, created_at: Seq<char>) -> StatsView {
    if s.created_at.len() == 0 {
        StatsView { created_at, ..s }
    } else {
        s
    }
}

/// The repositories of a user's page that count: not those of my
/// organization (they come complete from the organization's own query).
pub open spec fn not_my_org() -> spec_fn(Option<user::ReposNodes>) -> bool {
    |r: Option<user::ReposNodes>| r->0.owner.login@ != MY_ORG@
}

/// A page of my user's repositories: records when the account was created,
/// then collects the statistics of those not owned by my organization.
/// `None` where the page cannot be taken in: a part of the answer is missing, or a
/// step of the collection would panic (the statistics then hold what was
/// done before).
#[verifier::loop_isolation(false)]
pub fn user_repos_page(
    stats: &mut UserAndRepoStats,
    data: user::ResponseData,
    filter_date: (i64, u32),
) -> (r: Option<Result<PageStep, InvalidTimestamp>>)
    requires
        old(stats).wf(),
    ensures
        final(stats).wf(),
        data.user is None ==> r is None && final(stats)@ == old(stats)@,
        data.user is Some ==> {
            let u = data.user->0;
            let s1 = with_created_at(old(stats)@, u.created_at@);
            match u.repositories.nodes {
                None => r is None && final(stats)@ == s1,
                Some(nodes) => if exists|i: int| 0 <= i < nodes@.len() && (#[trigger] nodes@[i]) is None {
                    r is None && final(stats)@ == s1
                } else {
                    let c = stats_after_checked(s1, present(nodes@.filter(not_my_org())), filter_date);
                    &&& final(stats)@ == c.0
                    &&& match r {
                        None => c.1 is WouldPanic,
                        Some(Ok(step)) => c.1 is Done && step == next_page(
                            u.repositories.page_info.has_next_page,
                            u.repositories.page_info.end_cursor,
                        ),
                        Some(Err(e)) => c.1 == Collected::BadTimestamp(e.text@),
                    }
                },
            }
        },
{
    let u = match data.user {
        None => return None,
        Some(u) => u,
    };
    if stats.created_at.as_str().is_empty() {
        stats.created_at = u.created_at;
    }
    assert(stats@ == with_created_at(old(stats)@, u.created_at@));
    let nodes = match u.repositories.nodes {
        None => return None,
        Some(nodes) => nodes,
    };
    let ghost all = nodes@;
    let ghost pred = not_my_org();
    let n = nodes.len();
    let mut rest = nodes;
    let mut kept: Vec<Option<user::ReposNodes>> = Vec::new();
    for i in 0..n
        invariant
            n == all.len(),
            rest@ == all.skip(i as int),
            forall|j: int| 0 <= j < i ==> (#[trigger] all[j]) is Some,
            kept@ == all.take(i as int).filter(pred),
            forall|j: int| 0 <= j < kept@.len() ==> (#[trigger] kept@[j]) is Some,
            stats.wf(),
    {
        let item = rest.remove(0);
        assert(item == all[i as int]);
        assert(rest@ =~= all.skip(i + 1));
        assert(all.take(i + 1).drop_last() == all.take(i as int));
        reveal(Seq::filter);
        match item {
            None => {
                return None;
            },
            Some(repo) => {
                if !str_eq(repo.owner.login.as_str(), MY_ORG) {
                    kept.push(Some(repo));
                }
            },
        }
    }
    assert(all.take(n as int) == all);
    assert(!(exists|i: int| 0 <= i < all.len() && (#[trigger] all[i]) is None));
    assert(kept@ == all.filter(not_my_org()));
    proof {
        lemma_first_missing(kept@);
    }
    match collect_user_repo_stats_checked(stats, kept, filter_date) {
        None => None,
        Some(Err(e)) => Some(Err(e)),
        Some(Ok(())) => {
            if u.repositories.page_info.has_next_page {
                Some(Ok(PageStep::Fetch(u.repositories.page_info.end_cursor)))
            } else {
                Some(Ok(PageStep::Done))
            }
        },
    }
}

/// `users` are the organization's repositories `orgs`, each turned into the
/// type of a user's repository with every field kept; a missing one stays
/// missing.
pub open spec fn converted_repos(orgs: Seq<Option<org::ReposNodes>>, users: Seq<Option<user::ReposNodes>>) -> bool {
    &&& orgs.len() == users.len()
    &&& forall|i: int| 0 <= i < orgs.len() ==> ((#[trigger] orgs[i]) is None <==> users[i] is None)
    &&& forall|i: int| 0 <= i < orgs.len() && (#[trigger] orgs[i]) is Some ==> same_repo(orgs[i]->0, users[i]->0)
}

/// A page of my organization's repositories: turns them into the type of a
/// user's repositories and collects their statistics in turn. `None` where
/// the page cannot be taken in: a part of the answer is missing, the
/// collection reaches a missing repository, or a step of the collection would
/// panic (the statistics then hold what was done before).
#[verifier::loop_isolation(false)]
pub fn org_repos_page(
    stats: &mut UserAndRepoStats,
    data: org::ResponseData,
    filter_date: (i64, u32),
) -> (r: Option<Result<PageStep, InvalidTimestamp>>)
    requires
        old(stats).wf(),
    ensures
        final(stats).wf(),
        data.organization is None ==> r is None && final(stats)@ == old(stats)@,
        data.organization is Some ==> {
            let o = data.organization->0;
            match o.repositories.nodes {
                None => r is None && final(stats)@ == old(stats)@,
                Some(nodes) => exists|users: Seq<Option<user::ReposNodes>>| #[trigger] converted_repos(nodes@, users) && {
                    let c = collected_checked(old(stats)@, users, filter_date);
                    &&& final(stats)@ == c.0
                    &&& match r {
                        None => c.1 is WouldPanic,
                        Some(Ok(step)) => c.1 is Done && step == next_page(
                            o.repositories.page_info.has_next_page,
                            o.repositories.page_info.end_cursor,
                        ),
                        Some(Err(e)) => c.1 == Collected::BadTimestamp(e.text@),
                    }
                },
            }
        },
{
    let o = match data.organization {
        None => return None,
        Some(o) => o,
    };
    let nodes = match o.repositories.nodes {
        None => return None,
        Some(nodes) => nodes,
    };
    let ghost all = nodes@;
    let n = nodes.len();
    let mut rest = nodes;
    let mut converted: Vec<Option<user::ReposNodes>> = Vec::new();
    for i in 0..n
        invariant
            n == all.len(),
            rest@ == all.skip(i as int),
            converted@.len() == i,
            forall|j: int| 0 <= j < i ==> ((#[trigger] all[j]) is None <==> converted@[j] is None),
            forall|j: int| 0 <= j < i && (#[trigger] all[j]) is Some ==> same_repo(all[j]->0, converted@[j]->0),
            stats.wf(),
    {
        let item = rest.remove(0);
        assert(item == all[i as int]);
        assert(rest@ =~= all.skip(i + 1));
        let c = match item {
            None => None,
            Some(repo) => Some(user::ReposNodes::from(repo)),
        };
        converted.push(c);
    }
    let ghost users = converted@;
    let outcome = collect_user_repo_stats_checked(stats, converted, filter_date);
    assert(converted_repos(all, users));
    match outcome {
        None => None,
        Some(Err(e)) => Some(Err(e)),
        Some(Ok(())) => {
            if o.repositories.page_info.has_next_page {
                Some(Ok(PageStep::Fetch(o.repositories.page_info.end_cursor)))
            } else {
                Some(Ok(PageStep::Done))
            }
        },
    }
}

/// What a repository I contributed to does to the list of others'
/// repositories: `None` where it cannot be taken in (a part of the answer is
/// missing, or chrono cannot parse the commit date), `Some(None)` where it is
/// passed over (it is mine, has no commit, or its branch points at no commit),
/// and the repository as listed otherwise: no forks or stars counted, and the
/// UTC day of the last commit that GitHub lists.
pub open spec fn contributed_outcome(node: Option<ContributedNode>) -> Option<Option<RepoView>> {
    match node {
        None => Some(None),
        Some(n) => if n.owner.login@ == MY_LOGIN@ || n.owner.login@ == MY_ORG@ {
            Some(None)
        } else {
            match n.default_branch_ref {
                None => None,
                Some(b) => match b.target {
                    Some(ContributedTarget::Commit(c)) => match c.history.nodes {
                        None => None,
                        Some(v) => if v@.len() == 0 {
                            Some(None)
                        } else {
                            match v@.last() {
                                None => None,
                                Some(h) => if rfc3339_instant(h.committed_date@) is None {
                                    None
                                } else {
                                    Some(Some(RepoView {
                                        full_name: n.name_with_owner@,
                                        url: n.url@,
                                        fork_count: 0,
                                        stargazer_count: 0,
                                        committed_date: rfc3339_utc_day(h.committed_date@, DATE_FORMAT@),
                                    }))
                                },
                            }
                        },
                    },
                    _ => Some(None),
                },
            }
        },
    }
}

/// The list of others' repositories after the repositories I contributed to,
/// in turn, and whether they all went in without a panic.
pub open spec fn contributed_after(others: Seq<RepoView>, nodes: Seq<Option<ContributedNode>>) -> (Seq<RepoView>, bool)
    decreases nodes.len(),
{
    if nodes.len() == 0 {
        (others, true)
    } else {
        let before = contributed_after(others, nodes.drop_last());
        if !before.1 {
            before
        } else {
            match contributed_outcome(nodes.last()) {
                None => (before.0, false),
                Some(None) => before,
                Some(Some(v)) => (before.0.push(v), true),
            }
        }
    }
}

/// The repository as the list of others' repositories shows it, if it is
/// listed; `None` where it cannot be taken in.
fn contributed_repo(node: Option<ContributedNode>) -> (r: Option<Option<OneRepo>>)
    ensures
        match r {
            None => contributed_outcome(node) is None,
            Some(None) => contributed_outcome(node) == Some(None::<RepoView>),
            Some(Some(o)) => contributed_outcome(node) == Some(Some(o@)),
        },
{
    let n = match node {
        None => return Some(None),
        Some(n) => n,
    };
    if str_eq(n.owner.login.as_str(), MY_LOGIN) || str_eq(n.owner.login.as_str(), MY_ORG) {
        return Some(None);
    }
    let b = match n.default_branch_ref {
        None => return None,
        Some(b) => b,
    };
    let c = match b.target {
        Some(ContributedTarget::Commit(c)) => c,
        _ => return Some(None),
    };
    let mut history = match c.history.nodes {
        None => return None,
        Some(v) => v,
    };
    if history.len() == 0 {
        return Some(None);
    }
    let last = match history.pop() {
        Some(Some(h)) => h,
        _ => return None,
    };
    let date = last.committed_date.as_str();
    match instant_of(date) {
        Err(_) => return None,
        Ok(_) => {},
    }
    let committed_date = utc_day_of(date);
    Some(Some(OneRepo {
        full_name: n.name_with_owner,
        url: n.url,
        fork_count: 0,
        stargazer_count: 0,
        committed_date,
    }))
}

/// A page of the repositories I recently contributed to: lists each one not
/// owned by me or my organization among others' repositories. `None` where
/// the page cannot be taken in; the list then holds what went in before.
#[verifier::loop_isolation(false)]
pub fn contributed_repos_page(stats: &mut UserAndRepoStats, data: ContributedResponse) -> (r: Option<PageStep>)
    requires
        old(stats).wf(),
    ensures
        final(stats).wf(),
        data.user is None ==> r is None && final(stats)@ == old(stats)@,
        data.user is Some ==> {
            let t = data.user->0.repositories_contributed_to;
            match t.nodes {
                None => r is None && final(stats)@ == old(stats)@,
                Some(nodes) => {
                    let after = contributed_after(old(stats)@.other_repos, nodes@);
                    &&& final(stats)@ == (StatsView { other_repos: after.0, ..old(stats)@ })
                    &&& (r is Some <==> after.1)
                    &&& r is Some ==> r == Some(next_page(t.page_info.has_next_page, t.page_info.end_cursor))
                },
            }
        },
{
    let u = match data.user {
        None => return None,
        Some(u) => u,
    };
    let t = u.repositories_contributed_to;
    let nodes = match t.nodes {
        None => return None,
        Some(nodes) => nodes,
    };
    let ghost all = nodes@;
    let ghost start = stats@;
    let n = nodes.len();
    let mut rest = nodes;
    for i in 0..n
        invariant
            n == all.len(),
            rest@ == all.skip(i as int),
            stats.wf(),
            contributed_after(start.other_repos, all.take(i as int)).1,
            stats@ == (StatsView { other_repos: contributed_after(start.other_repos, all.take(i as int)).0, ..start }),
    {
        let item = rest.remove(0);
        assert(item == all[i as int]);
        assert(rest@ =~= all.skip(i + 1));
        assert(all.take(i + 1).drop_last() == all.take(i as int));
        let ghost before = stats@;
        match contributed_repo(item) {
            None => {
                proof {
                    assert(!contributed_after(start.other_repos, all.take(i + 1)).1);
                    lemma_contributed_stopped_stays(start.other_repos, all, i + 1);
                }
                return None;
            },
            Some(None) => {},
            Some(Some(one)) => {
                stats.other_repos.push(one);
                assert(stats@.other_repos =~= before.other_repos.push(one@));
            },
        }
    }
    assert(all.take(n as int) == all);
    if t.page_info.has_next_page {
        Some(PageStep::Fetch(t.page_info.end_cursor))
    } else {
        Some(PageStep::Done)
    }
}

/// Once a repository cannot be taken in, later ones change nothing.
pub proof fn lemma_contributed_stopped_stays(others: Seq<RepoView>, nodes: Seq<Option<ContributedNode>>, j: int)
    requires
        0 <= j <= nodes.len(),
        !contributed_after(others, nodes.take(j)).1,
    ensures
        contributed_after(others, nodes) == contributed_after(others, nodes.take(j)),
    decreases nodes.len() - j,
{
    if j == nodes.len() {
        assert(nodes.take(j) == nodes);
    } else {
        let shorter = nodes.drop_last();
        assert(shorter.take(j) == nodes.take(j));
        lemma_contributed_stopped_stays(others, shorter, j);
    }
}

} // verus!
