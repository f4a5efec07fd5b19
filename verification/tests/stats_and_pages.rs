use autarch_readme::activity::{attempt_step, AttemptStep, IssueAndPrStats};
use autarch_readme::dates::instant_of;
use autarch_readme::github_queries::issues_and_prs_query;
use autarch_readme::github_queries::organization_repos_query as org;
use autarch_readme::github_queries::user_contributed_repos_query as contributed;
use autarch_readme::github_queries::user_repos_query::{
    repos, ReposNodes, ReposNodesDefaultBranchRef, ReposNodesDefaultBranchRefTarget,
    ReposNodesDefaultBranchRefTargetOnCommit, ReposNodesDefaultBranchRefTargetOnCommitHistory,
    ReposNodesDefaultBranchRefTargetOnCommitHistoryNodes, ReposNodesLanguages, ReposNodesLanguagesEdges,
    ReposNodesLanguagesNodes, ReposNodesOwner, ReposNodesOwnerOn, ReposPageInfo, ResponseData,
    UserReposQueryUser,
};
use autarch_readme::languages::LanguageTable;
use autarch_readme::pages::{contributed_repos_page, org_repos_page, user_repos_page, PageStep};
use autarch_readme::repos::top_repos;
use autarch_readme::stats::{collect_user_repo_stats, collect_user_repo_stats_checked, dedup_other_repos, UserAndRepoStats};

fn languages(list: &[(&str, Option<&str>, i64)]) -> ReposNodesLanguages {
    ReposNodesLanguages {
        edges: Some(list.iter().map(|l| Some(ReposNodesLanguagesEdges { size: l.2 })).collect()),
        nodes: Some(
            list.iter()
                .map(|l| Some(ReposNodesLanguagesNodes { color: l.1.map(String::from), name: l.0.to_string() }))
                .collect(),
        ),
        total_size: list.iter().map(|l| l.2).sum(),
    }
}

fn repo(name: &str, dates: Option<Vec<&str>>) -> ReposNodes {
    ReposNodes {
        created_at: "2010-01-01T00:00:00Z".to_string(),
        default_branch_ref: Some(ReposNodesDefaultBranchRef {
            target: Some(ReposNodesDefaultBranchRefTarget::Commit(ReposNodesDefaultBranchRefTargetOnCommit {
                history: ReposNodesDefaultBranchRefTargetOnCommitHistory {
                    nodes: dates.map(|ds| {
                        ds.iter()
                            .map(|d| {
                                Some(ReposNodesDefaultBranchRefTargetOnCommitHistoryNodes {
                                    committed_date: d.to_string(),
                                })
                            })
                            .collect()
                    }),
                },
            })),
        }),
        fork_count: 3,
        is_archived: false,
        is_disabled: false,
        is_empty: false,
        is_fork: false,
        is_mirror: false,
        is_private: false,
        name_with_owner: name.to_string(),
        languages: None,
        license_info: None,
        owner: ReposNodesOwner { login: "autarch".to_string(), on: ReposNodesOwnerOn::User },
        stargazer_count: 7,
        url: format!("https://github.com/{name}"),
    }
}


fn rows(t: &LanguageTable) -> Vec<(String, i64)> {
    (0..t.len()).map(|i| { let e = t.get(i); (e.name.clone(), e.size) }).collect()
}

fn owned(name: &str, date: &str) -> ReposNodes {
    let mut r = repo(name, Some(vec![date]));
    r.languages = Some(languages(&[("Perl", Some("#0298c3"), 100), ("Shell", Some("#89e051"), 1)]));
    r
}

fn filter() -> (i64, u32) {
    instant_of("2022-06-01T00:00:00Z").ok().unwrap()
}

#[test]
fn collect_counts_and_lists() {
    let mut stats = UserAndRepoStats::default();
    let mut fork = owned("autarch/fork", "2023-01-01T00:00:00Z");
    fork.is_fork = true;
    let mut archived = owned("autarch/old", "2023-01-01T00:00:00Z");
    archived.is_archived = true;
    let mut other = repo("someone/thing", Some(vec!["2023-02-03T04:05:06Z"]));
    other.owner.login = "someone".to_string();
    let mut stale_other = repo("someone/stale", Some(vec!["2020-02-03T04:05:06Z"]));
    stale_other.owner.login = "someone".to_string();
    let mut org_repo = owned("houseabsolute/lib", "2019-05-05T00:00:00Z");
    org_repo.owner.login = "houseabsolute".to_string();
    let repos = vec![
        Some(owned("autarch/live", "2023-01-01T00:00:00Z")),
        Some(fork),
        Some(archived),
        Some(other),
        Some(stale_other),
        Some(org_repo),
    ];
    assert!(collect_user_repo_stats(&mut stats, repos, filter()).is_ok());
    assert_eq!(stats.total_repos, 3);
    assert_eq!(stats.forked_repos, 1);
    assert_eq!(stats.owned_repos, 2);
    assert_eq!(stats.live_repos, 1);
    assert_eq!(rows(&stats.all_time_languages), vec![("Perl".to_string(), 200)]);
    assert_eq!(rows(&stats.recent_languages), vec![("Perl".to_string(), 100)]);
    let mine: Vec<String> = stats.my_repos.iter().map(|r| r.full_name.clone()).collect();
    assert_eq!(mine, vec!["autarch/live", "houseabsolute/lib"]);
    let others: Vec<(String, String)> = stats.other_repos.iter().map(|r| (r.full_name.clone(), r.committed_date.clone())).collect();
    assert_eq!(others, vec![("someone/thing".to_string(), "2023-02-03".to_string())]);
    let top = top_repos(&stats);
    assert_eq!(top.my_most_recent.len(), 2);
    assert_eq!(top.my_most_recent[0].full_name, "autarch/live");
    assert_eq!(top.other_most_recent.len(), 1);
}

#[test]
fn collect_stops_at_bad_date() {
    let mut stats = UserAndRepoStats::default();
    let repos = vec![
        Some(owned("autarch/a", "2023-01-01T00:00:00Z")),
        Some(owned("autarch/b", "last tuesday")),
        Some(owned("autarch/c", "2023-01-01T00:00:00Z")),
    ];
    let r = collect_user_repo_stats(&mut stats, repos, filter());
    assert_eq!(r.err().unwrap().text, "last tuesday");
    assert_eq!(stats.total_repos, 2);
    assert_eq!(stats.my_repos.len(), 1);
}

#[test]
fn collect_checked_refuses_what_would_panic() {
    let mut stats = UserAndRepoStats::default();
    let no_languages = repo("autarch/bare", Some(vec!["2023-01-01T00:00:00Z"]));
    let repos = vec![Some(owned("autarch/a", "2023-01-01T00:00:00Z")), Some(no_languages)];
    assert!(collect_user_repo_stats_checked(&mut stats, repos, filter()).is_none());
    assert_eq!(stats.total_repos, 1);
    let mut stats2 = UserAndRepoStats::default();
    assert!(collect_user_repo_stats_checked(&mut stats2, vec![None], filter()).is_none());
    assert_eq!(stats2.total_repos, 0);
    let mut stats3 = UserAndRepoStats::default();
    let mut no_color = owned("autarch/odd", "2023-01-01T00:00:00Z");
    no_color.languages = Some(languages(&[("Brainfuck", None, 10), ("Perl", Some("#0298c3"), 1)]));
    assert!(collect_user_repo_stats_checked(&mut stats3, vec![Some(no_color)], filter()).is_none());
    let mut stats4 = UserAndRepoStats::default();
    assert!(matches!(
        collect_user_repo_stats_checked(&mut stats4, vec![Some(owned("autarch/a", "2023-01-01T00:00:00Z"))], filter()),
        Some(Ok(()))
    ));
}

fn user_page(nodes: Vec<Option<ReposNodes>>, next: bool) -> ResponseData {
    ResponseData {
        user: Some(UserReposQueryUser {
            created_at: "2008-01-01T00:00:00Z".to_string(),
            repositories: repos {
                page_info: ReposPageInfo { end_cursor: Some("cursor1".to_string()), has_next_page: next },
                nodes: Some(nodes),
            },
        }),
    }
}

#[test]
fn user_page_skips_org_repos_and_pages() {
    let mut stats = UserAndRepoStats::default();
    let mut org_repo = owned("houseabsolute/lib", "2023-05-05T00:00:00Z");
    org_repo.owner.login = "houseabsolute".to_string();
    let step = user_repos_page(&mut stats, user_page(vec![Some(owned("autarch/a", "2023-01-01T00:00:00Z")), Some(org_repo)], true), filter());
    match step {
        Some(Ok(PageStep::Fetch(Some(c)))) => assert_eq!(c, "cursor1"),
        _ => panic!("expected another page"),
    }
    assert_eq!(stats.created_at, "2008-01-01T00:00:00Z");
    assert_eq!(stats.total_repos, 1);
    let step = user_repos_page(&mut stats, user_page(vec![], false), filter());
    assert!(matches!(step, Some(Ok(PageStep::Done))));
    assert!(user_repos_page(&mut stats, ResponseData { user: None }, filter()).is_none());
    assert!(user_repos_page(&mut stats, user_page(vec![None], false), filter()).is_none());
}

fn org_repo(name: &str, date: &str) -> org::ReposNodes {
    org::ReposNodes {
        created_at: "2010-01-01T00:00:00Z".to_string(),
        default_branch_ref: Some(org::ReposNodesDefaultBranchRef {
            target: Some(org::ReposNodesDefaultBranchRefTarget::Commit(org::ReposNodesDefaultBranchRefTargetOnCommit {
                history: org::ReposNodesDefaultBranchRefTargetOnCommitHistory {
                    nodes: Some(vec![Some(org::ReposNodesDefaultBranchRefTargetOnCommitHistoryNodes {
                        committed_date: date.to_string(),
                    })]),
                },
            })),
        }),
        fork_count: 2,
        is_archived: false,
        is_disabled: false,
        is_empty: false,
        is_fork: false,
        is_mirror: false,
        is_private: false,
        name_with_owner: name.to_string(),
        languages: Some(org::ReposNodesLanguages {
            edges: Some(vec![Some(org::ReposNodesLanguagesEdges { size: 40 }), Some(org::ReposNodesLanguagesEdges { size: 2 })]),
            nodes: Some(vec![
                Some(org::ReposNodesLanguagesNodes { color: Some("#0298c3".to_string()), name: "Perl".to_string() }),
                Some(org::ReposNodesLanguagesNodes { color: None, name: "Pod".to_string() }),
            ]),
            total_size: 42,
        }),
        license_info: Some(org::ReposNodesLicenseInfo { nickname: None, spdx_id: Some("MIT".to_string()), name: "MIT License".to_string() }),
        owner: org::ReposNodesOwner { login: "houseabsolute".to_string(), on: org::ReposNodesOwnerOn::Organization },
        stargazer_count: 11,
        url: format!("https://github.com/{name}"),
    }
}

#[test]
fn org_repository_converts_field_by_field() {
    let u = ReposNodes::from(org_repo("houseabsolute/x", "2023-01-01T00:00:00Z"));
    assert_eq!(u.name_with_owner, "houseabsolute/x");
    assert_eq!(u.fork_count, 2);
    assert_eq!(u.stargazer_count, 11);
    assert!(matches!(u.owner.on, ReposNodesOwnerOn::Organization));
    assert_eq!(u.license_info.as_ref().unwrap().spdx_id, Some("MIT".to_string()));
    assert_eq!(u.committed_date(), Some("2023-01-01T00:00:00Z"));
    let l = u.languages.unwrap();
    assert_eq!(l.total_size, 42);
    assert_eq!(l.nodes.unwrap()[1].as_ref().unwrap().name, "Pod");
}

#[test]
fn converted_repo_counts_as_the_user_repo_would() {
    let mut by_conversion = UserAndRepoStats::default();
    let converted = ReposNodes::from(org_repo("houseabsolute/x", "2023-01-01T00:00:00Z"));
    assert!(collect_user_repo_stats(&mut by_conversion, vec![Some(converted)], filter()).is_ok());
    let mut by_hand = UserAndRepoStats::default();
    let mut written = owned("houseabsolute/x", "2023-01-01T00:00:00Z");
    written.owner.login = "houseabsolute".to_string();
    written.owner.on = ReposNodesOwnerOn::Organization;
    written.languages = Some(languages(&[("Perl", Some("#0298c3"), 40), ("Pod", None, 2)]));
    assert!(collect_user_repo_stats(&mut by_hand, vec![Some(written)], filter()).is_ok());
    assert_eq!(by_conversion.total_repos, by_hand.total_repos);
    assert_eq!(by_conversion.owned_repos, by_hand.owned_repos);
    assert_eq!(by_conversion.live_repos, by_hand.live_repos);
    assert_eq!(rows(&by_conversion.all_time_languages), rows(&by_hand.all_time_languages));
    assert_eq!(rows(&by_conversion.recent_languages), vec![("Perl".to_string(), 40)]);
    let names = |s: &UserAndRepoStats| -> Vec<(String, String)> {
        s.my_repos.iter().map(|r| (r.full_name.clone(), r.committed_date.clone())).collect()
    };
    assert_eq!(names(&by_conversion), names(&by_hand));
}

#[test]
fn org_page_collects_converted_repos() {
    let mut stats = UserAndRepoStats::default();
    let data = org::ResponseData {
        organization: Some(org::OrganizationReposQueryOrganization {
            repositories: org::repos {
                page_info: org::ReposPageInfo { end_cursor: None, has_next_page: false },
                nodes: Some(vec![Some(org_repo("houseabsolute/x", "2023-01-01T00:00:00Z"))]),
            },
        }),
    };
    assert!(matches!(org_repos_page(&mut stats, data, filter()), Some(Ok(PageStep::Done))));
    assert_eq!(stats.owned_repos, 1);
    assert_eq!(stats.live_repos, 1);
    assert_eq!(rows(&stats.recent_languages), vec![("Perl".to_string(), 40)]);
    assert!(org_repos_page(&mut stats, org::ResponseData { organization: None }, filter()).is_none());
}

fn contributed_node(owner: &str, name: &str, dates: Option<Vec<Option<&str>>>) -> contributed::UserContributedReposQueryUserRepositoriesContributedToNodes {
    contributed::UserContributedReposQueryUserRepositoriesContributedToNodes {
        name_with_owner: name.to_string(),
        url: format!("https://github.com/{name}"),
        owner: contributed::UserContributedReposQueryUserRepositoriesContributedToNodesOwner { login: owner.to_string() },
        default_branch_ref: Some(contributed::UserContributedReposQueryUserRepositoriesContributedToNodesDefaultBranchRef {
            target: Some(contributed::UserContributedReposQueryUserRepositoriesContributedToNodesDefaultBranchRefTarget::Commit(
                contributed::UserContributedReposQueryUserRepositoriesContributedToNodesDefaultBranchRefTargetOnCommit {
                    history: contributed::UserContributedReposQueryUserRepositoriesContributedToNodesDefaultBranchRefTargetOnCommitHistory {
                        nodes: dates.map(|ds| ds.iter().map(|d| d.map(|d| contributed::UserContributedReposQueryUserRepositoriesContributedToNodesDefaultBranchRefTargetOnCommitHistoryNodes { committed_date: d.to_string() })).collect()),
                    },
                },
            )),
        }),
    }
}

fn contributed_page(nodes: Vec<Option<contributed::UserContributedReposQueryUserRepositoriesContributedToNodes>>) -> contributed::ResponseData {
    contributed::ResponseData {
        user: Some(contributed::UserContributedReposQueryUser {
            repositories_contributed_to: contributed::UserContributedReposQueryUserRepositoriesContributedTo {
                page_info: contributed::UserContributedReposQueryUserRepositoriesContributedToPageInfo { end_cursor: Some("c2".to_string()), has_next_page: true },
                nodes: Some(nodes),
            },
        }),
    }
}

#[test]
fn contributed_page_lists_last_commit() {
    let mut stats = UserAndRepoStats::default();
    let page = contributed_page(vec![
        Some(contributed_node("rust-lang", "rust-lang/rust", Some(vec![Some("2020-01-01T00:00:00Z"), Some("2023-03-03T12:00:00Z")]))),
        None,
        Some(contributed_node("autarch", "autarch/mine", Some(vec![Some("2023-01-01T00:00:00Z")]))),
        Some(contributed_node("someone", "someone/empty", Some(vec![]))),
    ]);
    match contributed_repos_page(&mut stats, page) {
        Some(PageStep::Fetch(Some(c))) => assert_eq!(c, "c2"),
        _ => panic!("expected another page"),
    }
    assert_eq!(stats.other_repos.len(), 1);
    assert_eq!(stats.other_repos[0].full_name, "rust-lang/rust");
    assert_eq!(stats.other_repos[0].committed_date, "2023-03-03");
    assert_eq!(stats.other_repos[0].fork_count, 0);
    assert_eq!(stats.other_repos[0].stargazer_count, 0);
    let bad = contributed_page(vec![
        Some(contributed_node("x", "x/ok", Some(vec![Some("2023-01-01T00:00:00Z")]))),
        Some(contributed_node("y", "y/bad", Some(vec![Some("not a date")]))),
    ]);
    assert!(contributed_repos_page(&mut stats, bad).is_none());
    assert_eq!(stats.other_repos.len(), 2);
    let missing = contributed_page(vec![Some(contributed_node("z", "z/none", None))]);
    assert!(contributed_repos_page(&mut stats, missing).is_none());
    dedup_other_repos(&mut stats);
    assert_eq!(stats.other_repos.len(), 2);
}

#[test]
fn dedup_keeps_first() {
    let mut stats = UserAndRepoStats::default();
    let page = contributed_page(vec![
        Some(contributed_node("x", "x/a", Some(vec![Some("2023-01-01T00:00:00Z")]))),
        Some(contributed_node("x", "x/a", Some(vec![Some("2021-01-01T00:00:00Z")]))),
    ]);
    contributed_repos_page(&mut stats, page);
    assert_eq!(stats.other_repos.len(), 2);
    dedup_other_repos(&mut stats);
    assert_eq!(stats.other_repos.len(), 1);
    assert_eq!(stats.other_repos[0].committed_date, "2023-01-01");
}

#[test]
fn issue_and_pr_counts() {
    let data = issues_and_prs_query::ResponseData {
        issues_created: issues_and_prs_query::IssuesAndPrsQueryIssuesCreated { issue_count: 10 },
        issues_closed: issues_and_prs_query::IssuesAndPrsQueryIssuesClosed { issue_count: 8 },
        prs_created: issues_and_prs_query::IssuesAndPrsQueryPrsCreated { issue_count: 30 },
        prs_merged: issues_and_prs_query::IssuesAndPrsQueryPrsMerged { issue_count: 25 },
    };
    let s = IssueAndPrStats::from_response(data);
    assert_eq!((s.issues_created, s.issues_closed, s.prs_created, s.prs_merged), (10, 8, 30, 25));
}

#[test]
fn query_attempts() {
    assert!(matches!(attempt_step(1, false), AttemptStep::Accept));
    assert!(matches!(attempt_step(1, true), AttemptStep::Retry(2)));
    assert!(matches!(attempt_step(3, true), AttemptStep::Retry(4)));
    assert!(matches!(attempt_step(4, true), AttemptStep::GiveUp));
}

#[test]
fn left_out_repositories_change_nothing() {
    let mut archived = owned("autarch/old", "2023-01-01T00:00:00Z");
    archived.is_archived = true;
    let mut private = owned("autarch/secret", "bad date");
    private.is_private = true;
    let mut empty = repo("autarch/empty", None);
    empty.is_empty = true;
    let mut with = UserAndRepoStats::default();
    let all = vec![Some(archived), Some(owned("autarch/live", "2023-01-01T00:00:00Z")), Some(private), Some(empty)];
    assert!(collect_user_repo_stats(&mut with, all, filter()).is_ok());
    let mut without = UserAndRepoStats::default();
    assert!(collect_user_repo_stats(&mut without, vec![Some(owned("autarch/live", "2023-01-01T00:00:00Z"))], filter()).is_ok());
    assert_eq!(with.total_repos, without.total_repos);
    assert_eq!(with.owned_repos, without.owned_repos);
    assert_eq!(with.live_repos, without.live_repos);
    assert_eq!(rows(&with.all_time_languages), rows(&without.all_time_languages));
    assert_eq!(rows(&with.recent_languages), rows(&without.recent_languages));
    assert_eq!(with.my_repos.len(), 1);
}

#[test]
fn recent_languages_stay_within_all_time() {
    let mut stats = UserAndRepoStats::default();
    let mut old = owned("autarch/old", "2019-01-01T00:00:00Z");
    old.languages = Some(languages(&[("Go", Some("#00ADD8"), 50), ("Perl", Some("#0298c3"), 30), ("C", Some("#555555"), 1)]));
    let repos = vec![Some(owned("autarch/live", "2023-01-01T00:00:00Z")), Some(old)];
    assert!(collect_user_repo_stats(&mut stats, repos, filter()).is_ok());
    let all = rows(&stats.all_time_languages);
    for (name, size) in rows(&stats.recent_languages) {
        let total = all.iter().find(|r| r.0 == name).map(|r| r.1).unwrap();
        assert!(0 <= size && size <= total);
    }
    assert_eq!(all, vec![("Perl".to_string(), 130), ("Go".to_string(), 50)]);
    assert_eq!(rows(&stats.recent_languages), vec![("Perl".to_string(), 100)]);
}

#[test]
fn collection_stops_at_a_missing_repository_in_order() {
    let mut stats = UserAndRepoStats::default();
    let r = collect_user_repo_stats(
        &mut stats,
        vec![Some(owned("autarch/a", "2023-01-01T00:00:00Z")), Some(owned("autarch/b", "yesterday")), None],
        filter(),
    );
    assert_eq!(r.err().unwrap().text, "yesterday");
    assert_eq!(stats.total_repos, 2);
    let mut checked = UserAndRepoStats::default();
    let r = collect_user_repo_stats_checked(&mut checked, vec![Some(owned("autarch/a", "2023-01-01T00:00:00Z")), None, Some(owned("autarch/b", "yesterday"))], filter());
    assert!(r.is_none());
    assert_eq!(checked.total_repos, 1);
    assert_eq!(checked.my_repos.len(), 1);
}

#[test]
fn org_page_reports_a_bad_date_before_a_missing_repository() {
    let mut stats = UserAndRepoStats::default();
    let data = org::ResponseData {
        organization: Some(org::OrganizationReposQueryOrganization {
            repositories: org::repos {
                page_info: org::ReposPageInfo { end_cursor: None, has_next_page: false },
                nodes: Some(vec![
                    Some(org_repo("houseabsolute/x", "2023-01-01T00:00:00Z")),
                    Some(org_repo("houseabsolute/y", "not a date")),
                    None,
                ]),
            },
        }),
    };
    match org_repos_page(&mut stats, data, filter()) {
        Some(Err(e)) => assert_eq!(e.text, "not a date"),
        _ => panic!("expected the parse error"),
    }
    assert_eq!(stats.total_repos, 2);
    assert_eq!(stats.live_repos, 1);
    let mut stats2 = UserAndRepoStats::default();
    let data2 = org::ResponseData {
        organization: Some(org::OrganizationReposQueryOrganization {
            repositories: org::repos {
                page_info: org::ReposPageInfo { end_cursor: None, has_next_page: false },
                nodes: Some(vec![Some(org_repo("houseabsolute/x", "2023-01-01T00:00:00Z")), None]),
            },
        }),
    };
    assert!(org_repos_page(&mut stats2, data2, filter()).is_none());
    assert_eq!(stats2.total_repos, 1);
}

#[test]
fn left_out_repositories_change_nothing_before_a_missing_one() {
    let mut archived = owned("autarch/old", "2023-01-01T00:00:00Z");
    archived.is_archived = true;
    let mut with = UserAndRepoStats::default();
    let r1 = collect_user_repo_stats_checked(&mut with, vec![Some(owned("autarch/a", "2023-01-01T00:00:00Z")), Some(archived), None], filter());
    let mut without = UserAndRepoStats::default();
    let r2 = collect_user_repo_stats_checked(&mut without, vec![Some(owned("autarch/a", "2023-01-01T00:00:00Z")), None], filter());
    assert!(r1.is_none() && r2.is_none());
    assert_eq!(with.total_repos, without.total_repos);
    assert_eq!(rows(&with.all_time_languages), rows(&without.all_time_languages));
}
