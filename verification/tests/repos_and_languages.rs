use autarch_readme::github_queries::user_repos_query::{
    ReposNodes, ReposNodesDefaultBranchRef, ReposNodesDefaultBranchRefTarget,
    ReposNodesDefaultBranchRefTargetOnCommit, ReposNodesDefaultBranchRefTargetOnCommitHistory,
    ReposNodesDefaultBranchRefTargetOnCommitHistoryNodes, ReposNodesLanguages, ReposNodesLanguagesEdges,
    ReposNodesLanguagesNodes, ReposNodesOwner, ReposNodesOwnerOn,
};
use autarch_readme::languages::{
    collect_language_stats, language_color, language_pairs_for_template, sort_language_stats, total_size,
    try_collect_language_stats, LanguageStat, LanguageTable,
};
use autarch_readme::repos::{repo_pairs_for_template, top_n, unique_by_full_name, OneRepo, RepoOrder};

fn languages(list: &[(&str, Option<&str>, i64)]) -> ReposNodesLanguages {
    ReposNodesLanguages {
        edges: Some(list.iter().map(|l| Some(ReposNodesLanguagesEdges { size: l.2 })).collect()),
        nodes: Some(
            list.iter()
                .map(|l| Some(ReposNodesLanguagesNodes { color: l.1.map(String::from), name: l.0.to_string() }))
                .collect(),
        ),
        total_size: list.iter().map(|l| l.2).sum(),
    }
}

fn repo(name: &str, dates: Option<Vec<&str>>) -> ReposNodes {
    ReposNodes {
        created_at: "2010-01-01T00:00:00Z".to_string(),
        default_branch_ref: Some(ReposNodesDefaultBranchRef {
            target: Some(ReposNodesDefaultBranchRefTarget::Commit(ReposNodesDefaultBranchRefTargetOnCommit {
                history: ReposNodesDefaultBranchRefTargetOnCommitHistory {
                    nodes: dates.map(|ds| {
                        ds.iter()
                            .map(|d| {
                                Some(ReposNodesDefaultBranchRefTargetOnCommitHistoryNodes {
                                    committed_date: d.to_string(),
                                })
                            })
                            .collect()
                    }),
                },
            })),
        }),
        fork_count: 3,
        is_archived: false,
        is_disabled: false,
        is_empty: false,
        is_fork: false,
        is_mirror: false,
        is_private: false,
        name_with_owner: name.to_string(),
        languages: None,
        license_info: None,
        owner: ReposNodesOwner { login: "autarch".to_string(), on: ReposNodesOwnerOn::User },
        stargazer_count: 7,
        url: format!("https://github.com/{name}"),
    }
}

fn one(name: &str, forks: i64, stars: i64, date: &str) -> OneRepo {
    OneRepo {
        full_name: name.to_string(),
        url: format!("https://github.com/{name}"),
        fork_count: forks,
        stargazer_count: stars,
        committed_date: date.to_string(),
    }
}

#[test]
fn committed_date_is_first_commit() {
    let r = repo("autarch/a", Some(vec!["2021-01-02T03:04:05Z", "2020-01-01T00:00:00Z"]));
    assert_eq!(r.committed_date(), Some("2021-01-02T03:04:05Z"));
    let empty = repo("autarch/b", Some(vec![]));
    assert_eq!(empty.committed_date(), None);
    let mut tag = repo("autarch/c", None);
    tag.default_branch_ref = Some(ReposNodesDefaultBranchRef { target: Some(ReposNodesDefaultBranchRefTarget::Tag) });
    assert_eq!(tag.committed_date(), None);
}

#[test]
fn one_repo_from_repository() {
    let r = repo("autarch/a", Some(vec!["2021-01-02T23:04:05-05:00"]));
    let o = OneRepo::from(r);
    assert_eq!(o.full_name, "autarch/a");
    assert_eq!(o.url, "https://github.com/autarch/a");
    assert_eq!(o.fork_count, 3);
    assert_eq!(o.stargazer_count, 7);
    assert_eq!(o.committed_date, "2021-01-03");
    assert_eq!(o.string_for_template(), "[autarch/a](https://github.com/autarch/a) - 2021-01-03");
}

#[test]
fn top_n_ranks_stably() {
    let repos = vec![
        one("a", 1, 5, "2020-01-01"),
        one("b", 3, 5, "2022-01-01"),
        one("c", 3, 9, "2021-01-01"),
        one("d", 0, 1, "2022-01-01"),
    ];
    let names = |v: Vec<&OneRepo>| v.iter().map(|r| r.full_name.clone()).collect::<Vec<_>>();
    assert_eq!(names(top_n(&repos, 10, RepoOrder::MostRecentCommit)), vec!["b", "d", "c", "a"]);
    assert_eq!(names(top_n(&repos, 2, RepoOrder::MostForks)), vec!["b", "c"]);
    assert_eq!(names(top_n(&repos, 3, RepoOrder::MostStars)), vec!["c", "a", "b"]);
    assert_eq!(names(top_n(&repos, 0, RepoOrder::MostStars)), Vec::<String>::new());
}

#[test]
fn unique_keeps_first_of_each_name() {
    let repos = vec![one("a", 1, 0, "x"), one("b", 2, 0, "y"), one("a", 3, 0, "z"), one("c", 4, 0, "w")];
    let u = unique_by_full_name(repos);
    let got: Vec<(String, i64)> = u.iter().map(|r| (r.full_name.clone(), r.fork_count)).collect();
    assert_eq!(got, vec![("a".to_string(), 1), ("b".to_string(), 2), ("c".to_string(), 4)]);
}

#[test]
fn repo_pairs_zip_longest() {
    let a = one("a", 0, 0, "2020-01-01");
    let b = one("b", 0, 0, "2021-01-01");
    let c = one("c", 0, 0, "2022-01-01");
    let rows = repo_pairs_for_template(&[&a, &b], &[&c]);
    assert_eq!(rows.len(), 2);
    assert_eq!(rows[0].0, "[a](https://github.com/a) - 2020-01-01");
    assert_eq!(rows[0].1, "[c](https://github.com/c) - 2022-01-01");
    assert_eq!(rows[1].0, "[b](https://github.com/b) - 2021-01-01");
    assert_eq!(rows[1].1, "");
}

#[test]
fn language_colors() {
    assert_eq!(language_color("Rust", Some("#dea584")), "#dea584");
    assert_eq!(language_color("Perl 6", None), "#00A9E0");
    assert_eq!(language_color("XS", None), "#021c9e");
}

fn rows(t: &LanguageTable) -> Vec<(String, String, i64)> {
    (0..t.len()).map(|i| { let e = t.get(i); (e.name.clone(), e.color.clone(), e.size) }).collect()
}

#[test]
fn collect_language_stats_skips_last_language() {
    let mut t = LanguageTable::new();
    collect_language_stats(&mut t, "autarch/x", &languages(&[("Perl", Some("#0298c3"), 100), ("Rust", Some("#dea584"), 50), ("Shell", Some("#89e051"), 5)]));
    assert_eq!(rows(&t), vec![("Perl".to_string(), "#0298c3".to_string(), 100), ("Rust".to_string(), "#dea584".to_string(), 50)]);
    collect_language_stats(&mut t, "autarch/y", &languages(&[("Rust", Some("#000000"), 10), ("Go", Some("#00ADD8"), 1)]));
    assert_eq!(rows(&t), vec![("Perl".to_string(), "#0298c3".to_string(), 100), ("Rust".to_string(), "#dea584".to_string(), 60)]);
    assert_eq!(total_size(&t), 160);
}

#[test]
fn collect_language_stats_special_repos() {
    let mut t = LanguageTable::new();
    collect_language_stats(&mut t, "autarch/presentations", &languages(&[("HTML", Some("#e34c26"), 100), ("JS", Some("#f1e05a"), 1)]));
    assert_eq!(t.len(), 0);
    collect_language_stats(&mut t, "houseabsolute/File-LibMagic", &languages(&[("C", None, 30), ("Perl", Some("#0298c3"), 20), ("Raku", None, 1)]));
    assert_eq!(rows(&t), vec![("XS".to_string(), "#021c9e".to_string(), 30), ("Perl".to_string(), "#0298c3".to_string(), 20)]);
    collect_language_stats(&mut t, "houseabsolute/perl-code-tidyall", &languages(&[("PHP", Some("#4F5D95"), 500), ("Perl", Some("#0298c3"), 5), ("JS", Some("#f1e05a"), 9)]));
    assert_eq!(rows(&t), vec![("XS".to_string(), "#021c9e".to_string(), 30), ("Perl".to_string(), "#0298c3".to_string(), 25)]);
    collect_language_stats(&mut t, "autarch/z", &languages(&[]));
    assert_eq!(t.len(), 2);
}

#[test]
fn try_collect_stops_on_overflow() {
    let mut t = LanguageTable::new();
    collect_language_stats(&mut t, "autarch/x", &languages(&[("Perl", Some("#0298c3"), i64::MAX), ("Go", Some("#00ADD8"), 1)]));
    assert!(!try_collect_language_stats(&mut t, "autarch/y", &languages(&[("Perl", Some("#0298c3"), 1), ("Go", Some("#00ADD8"), 1)])));
    assert!(try_collect_language_stats(&mut t, "autarch/y", &languages(&[("Perl", Some("#0298c3"), -1), ("Go", Some("#00ADD8"), 1)])));
    assert_eq!(rows(&t), vec![("Perl".to_string(), "#0298c3".to_string(), i64::MAX - 1)]);
}

fn stat(name: &str, pct: i64) -> LanguageStat {
    LanguageStat { name: name.to_string(), color: "#000000".to_string(), percentage: pct, bytes: "1 KiB".to_string() }
}

#[test]
fn language_stat_lines() {
    assert_eq!(stat("Perl", 42).string_for_template(), "Perl: 42%, 1 KiB");
    let sorted = sort_language_stats(vec![stat("a", 3), stat("b", 40), stat("c", 3), stat("d", 57)]);
    let names: Vec<String> = sorted.iter().map(|s| s.name.clone()).collect();
    assert_eq!(names, vec!["d", "b", "a", "c"]);
    let rows = language_pairs_for_template(vec![stat("Rust", 60)], vec![stat("Perl", 70), stat("C", 2)]);
    assert_eq!(rows, vec![
        ("Rust: 60%, 1 KiB".to_string(), "Perl: 70%, 1 KiB".to_string()),
        (String::new(), "C: 2%, 1 KiB".to_string()),
    ]);
}

#[test]
fn shorter_top_is_start_of_longer() {
    let repos = vec![one("a", 1, 5, "2020-01-01"), one("b", 3, 5, "2022-01-01"), one("c", 3, 9, "2021-01-01")];
    let short: Vec<String> = top_n(&repos, 2, RepoOrder::MostStars).iter().map(|r| r.full_name.clone()).collect();
    let long: Vec<String> = top_n(&repos, 3, RepoOrder::MostStars).iter().map(|r| r.full_name.clone()).collect();
    assert_eq!(short, long[..2].to_vec());
    let again: Vec<String> = top_n(&repos, 3, RepoOrder::MostStars).iter().map(|r| r.full_name.clone()).collect();
    assert_eq!(long, again);
}

#[test]
fn dedup_twice_is_dedup_once() {
    let repos = vec![one("a", 1, 0, "x"), one("a", 2, 0, "y"), one("b", 3, 0, "z")];
    let once = unique_by_full_name(repos);
    let once_names: Vec<(String, i64)> = once.iter().map(|r| (r.full_name.clone(), r.fork_count)).collect();
    let twice = unique_by_full_name(once);
    let twice_names: Vec<(String, i64)> = twice.iter().map(|r| (r.full_name.clone(), r.fork_count)).collect();
    assert_eq!(once_names, twice_names);
    assert_eq!(twice_names, vec![("a".to_string(), 1), ("b".to_string(), 3)]);
}

#[test]
fn try_collect_keeps_additions_before_the_overflow() {
    let mut t = LanguageTable::new();
    collect_language_stats(&mut t, "autarch/x", &languages(&[("Go", Some("#00ADD8"), i64::MAX), ("C", Some("#555555"), 1)]));
    let more = languages(&[
        ("Perl", Some("#0298c3"), 1),
        ("Go", Some("#00ADD8"), 1),
        ("Rust", Some("#dea584"), 1),
        ("Shell", Some("#89e051"), 1),
    ]);
    assert!(!try_collect_language_stats(&mut t, "autarch/y", &more));
    assert_eq!(rows(&t), vec![
        ("Go".to_string(), "#00ADD8".to_string(), i64::MAX),
        ("Perl".to_string(), "#0298c3".to_string(), 1),
    ]);
}

#[test]
fn collecting_languages_in_either_order_gives_the_same_sizes() {
    let a = languages(&[("Perl", Some("#0298c3"), 10), ("Go", Some("#00ADD8"), 5), ("C", Some("#555555"), 1)]);
    let b = languages(&[("Go", Some("#00ADD8"), 7), ("Rust", Some("#dea584"), 3), ("Shell", Some("#89e051"), 1)]);
    let mut first = LanguageTable::new();
    collect_language_stats(&mut first, "autarch/a", &a);
    collect_language_stats(&mut first, "autarch/b", &b);
    let mut second = LanguageTable::new();
    collect_language_stats(&mut second, "autarch/b", &b);
    collect_language_stats(&mut second, "autarch/a", &a);
    let sizes = |t: &LanguageTable| -> Vec<(String, i64)> {
        let mut v: Vec<(String, i64)> = rows(t).into_iter().map(|r| (r.0, r.2)).collect();
        v.sort();
        v
    };
    assert_eq!(sizes(&first), sizes(&second));
    assert_eq!(sizes(&first), vec![
        ("Go".to_string(), 12),
        ("Perl".to_string(), 10),
        ("Rust".to_string(), 3),
    ]);
}
