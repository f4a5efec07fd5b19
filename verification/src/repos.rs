//! Repositories as the README lists them: their last commit, their template
//! line, the most recent, starred and forked of them, and the table pairing
//! mine with others'.
use vstd::prelude::*;
use vstd::string::*;

use crate::dates::{rfc3339_instant, rfc3339_utc_day, utc_day_of, DATE_FORMAT};
use crate::github_queries::user_repos_query::{
    ReposNodes,
    ReposNodesDefaultBranchRefTarget,
};
use crate::sorting::{is_stable_order, stable_order};
use crate::stats::UserAndRepoStats;
use crate::text::{byte_key, byte_key_of};

verus! {

/// A repository as the README shows it.
pub struct OneRepo {
    pub full_name: String,
    pub url: String,
    pub fork_count: i64,
    pub stargazer_count: i64,
    pub committed_date: String,
}

/// A repository as the contracts see it.
pub struct RepoView {
    pub full_name: Seq<char>,
    pub url: Seq<char>,
    pub fork_count: int,
    pub stargazer_count: int,
    pub committed_date: Seq<char>,
}

impl View for OneRepo {
    type V = RepoView;

    open spec fn view(&self) -> RepoView {
        RepoView {
            full_name: self.full_name@,
            url: self.url@,
            fork_count: self.fork_count as int,
            stargazer_count: self.stargazer_count as int,
            committed_date: self.committed_date@,
        }
    }
}

/// `committed_date` of a repository can be read without a panic: it has a
/// default branch that points at something, and if that is a commit, its
/// history is there and its first commit is too.
pub open spec fn has_readable_commit(repo: ReposNodes) -> bool {
    &&& repo.default_branch_ref is Some
    &&& repo.default_branch_ref->0.target is Some
    &&& match repo.default_branch_ref->0.target->0 {
        ReposNodesDefaultBranchRefTarget::Commit(c) => {
            &&& c.history.nodes is Some
            &&& c.history.nodes->0@.len() > 0 ==> c.history.nodes->0@[0] is Some
        },
        _ => true,
    }
}

/// The date of the first commit in the history of the default branch, when
/// that branch points at a commit with a non-empty history.
pub open spec fn last_commit_date(repo: ReposNodes) -> Option<Seq<char>> {
    match repo.default_branch_ref->0.target->0 {
        ReposNodesDefaultBranchRefTarget::Commit(c) => {
            if c.history.nodes->0@.len() == 0 {
                None
            } else {
                Some(c.history.nodes->0@[0]->0.committed_date@)
            }
        },
        _ => None,
    }
}

impl ReposNodes {
    /// The date of the last commit on the default branch, if the branch
    /// points at a commit and has one.
    pub fn committed_date(&self) -> (r: Option<&str>)
        requires
            has_readable_commit(*self),
        ensures
            match r {
                Some(d) => last_commit_date(*self) == Some(d@),
                None => last_commit_date(*self) is None,
            },
    {
        let default_target = match &self.default_branch_ref {
            Some(b) => match &b.target {
                Some(t) => t,
                None => {
                    assert(false);
                    return None;
                },
            },
            None => {
                assert(false);
                return None;
            },
        };
        match default_target {
            ReposNodesDefaultBranchRefTarget::Commit(c) => {
                let nodes = match &c.history.nodes {
                    Some(n) => n,
                    None => {
                        assert(false);
                        return None;
                    },
                };
                if nodes.len() == 0 {
                    return None;
                }
                match &nodes[0] {
                    Some(node) => Some(node.committed_date.as_str()),
                    None => {
                        assert(false);
                        None
                    },
                }
            },
            _ => None,
        }
    }
}

/// Whether `committed_date` of the repository can be read without a panic.
pub fn commit_is_readable(repo: &ReposNodes) -> (r: bool)
    ensures
        r == has_readable_commit(*repo),
{
    match &repo.default_branch_ref {
        None => false,
        Some(b) => match &b.target {
            None => false,
            Some(ReposNodesDefaultBranchRefTarget::Commit(c)) => match &c.history.nodes {
                None => false,
                Some(nodes) => nodes.len() == 0 || nodes[0].is_some(),
            },
            Some(_) => true,
        },
    }
}

/// The repository can be turned into a `OneRepo`: it has a last commit whose
/// date chrono can parse.
pub open spec fn has_dated_commit(repo: ReposNodes) -> bool {
    &&& has_readable_commit(repo)
    &&& last_commit_date(repo) is Some
    &&& rfc3339_instant(last_commit_date(repo)->0) is Some
}

/// What `OneRepo::from` makes of a repository with a dated commit.
pub open spec fn repo_view_of(repo: ReposNodes) -> RepoView {
    RepoView {
        full_name: repo.name_with_owner@,
        url: repo.url@,
        fork_count: repo.fork_count as int,
        stargazer_count: repo.stargazer_count as int,
        committed_date: rfc3339_utc_day(last_commit_date(repo)->0, DATE_FORMAT@),
    }
}

/// The line of the README that shows a repository: its name linked to its
/// URL, then the day of its last commit.
pub open spec fn repo_line(r: OneRepo) -> Seq<char> {
    seq!['['] + r.full_name@ + seq![']', '('] + r.url@ + seq![')', ' ', '-', ' '] + r.committed_date@
}

impl OneRepo {
    /// The repository as the README shows it; its date is the UTC day of its
    /// last commit.
    pub fn from(repo: ReposNodes) -> (r: OneRepo)
        requires
            has_dated_commit(repo),
        ensures
            r.full_name == repo.name_with_owner,
            r.url == repo.url,
            r.fork_count == repo.fork_count,
            r.stargazer_count == repo.stargazer_count,
            r.committed_date@ == rfc3339_utc_day(last_commit_date(repo)->0, DATE_FORMAT@),
            r@ == repo_view_of(repo),
    {
        let committed_date = match repo.committed_date() {
            Some(d) => utc_day_of(d),
            None => {
                assert(false);
                String::new()
            },
        };
        OneRepo {
            full_name: repo.name_with_owner,
            url: repo.url,
            fork_count: repo.fork_count,
            stargazer_count: repo.stargazer_count,
            committed_date,
        }
    }

    /// The README line of the repository: `[name](url) - day`.
    pub fn string_for_template(&self) -> (r: String)
        ensures
            r@ == repo_line(*self),
    {
        proof {
            reveal_strlit("[");
            reveal_strlit("](");
            reveal_strlit(") - ");
        }
        let mut s = "[".to_owned();
        s.append(self.full_name.as_str());
        s.append("](");
        s.append(self.url.as_str());
        s.append(") - ");
        s.append(self.committed_date.as_str());
        s
    }
}

/// The orders in which the README ranks repositories, each from the highest
/// down: by the day of the last commit, by forks, by stars.
#[derive(Clone, Copy)]
pub enum RepoOrder {
    MostRecentCommit,
    MostForks,
    MostStars,
}

/// The key by which `order` ranks a repository.
pub open spec fn repo_key(r: OneRepo, order: RepoOrder) -> Seq<i64> {
    match order {
        RepoOrder::MostRecentCommit => byte_key(r.committed_date@),
        RepoOrder::MostForks => seq![r.fork_count],
        RepoOrder::MostStars => seq![r.stargazer_count],
    }
}

/// The keys of a list of repositories.
pub open spec fn repo_keys(repos: Seq<OneRepo>, order: RepoOrder) -> Seq<Seq<i64>> {
    repos.map_values(|r: OneRepo| repo_key(r, order))
}

/// The repositories that a list of references points at.
pub open spec fn deref_all(refs: Seq<&OneRepo>) -> Seq<OneRepo> {
    refs.map_values(|r: &OneRepo| *r)
}

/// `top` is the first `take` repositories of `repos` ranked by `order`
/// (highest first; equal keys in the order they came).
pub open spec fn is_top(repos: Seq<OneRepo>, take: int, order: RepoOrder, top: Seq<OneRepo>) -> bool {
    &&& top.len() == (if take < repos.len() { take } else { repos.len() as int })
    &&& exists|ranked: Seq<usize>|
        #![trigger is_stable_order(repo_keys(repos, order), true, ranked)]
        is_stable_order(repo_keys(repos, order), true, ranked)
        && forall|k: int| 0 <= k < top.len() ==> top[k] == repos[ranked[k] as int]
}

fn key_of(r: &OneRepo, order: RepoOrder) -> (k: Vec<i64>)
    ensures
        k@ == repo_key(*r, order),
{
    match order {
        RepoOrder::MostRecentCommit => byte_key_of(r.committed_date.as_str()),
        RepoOrder::MostForks => vec![r.fork_count],
        RepoOrder::MostStars => vec![r.stargazer_count],
    }
}

/// The first `take` repositories ranked by `order`, as a stable sort ranks
/// them.
pub fn top_n<'a>(repos: &'a [OneRepo], take: usize, order: RepoOrder) -> (r: Vec<&'a OneRepo>)
    ensures
        is_top(repos@, take as int, order, deref_all(r@)),
{
    let n = repos.len();
    let mut keys: Vec<Vec<i64>> = Vec::new();
    for i in 0..n
        invariant
            n == repos@.len(),
            keys@.len() == i,
            forall|j: int| 0 <= j < i ==> (#[trigger] keys@[j])@ == repo_key(repos@[j], order),
    {
        let k = key_of(&repos[i], order);
        keys.push(k);
    }
    assert(keys@.map_values(|k: Vec<i64>| k@) =~= repo_keys(repos@, order));
    let ranked = stable_order(&keys, true);
    let count = if take < n { take } else { n };
    let mut top: Vec<&'a OneRepo> = Vec::new();
    for k in 0..count
        invariant
            count <= n,
            n == repos@.len(),
            is_stable_order(repo_keys(repos@, order), true, ranked@),
            top@.len() == k,
            forall|j: int| 0 <= j < k ==> *top@[j] == repos@[ranked@[j] as int],
    {
        top.push(&repos[ranked[k]]);
    }
    assert(forall|j: int| 0 <= j < top@.len() ==> deref_all(top@)[j] == repos@[ranked@[j] as int]);
    top
}

/// The repositories at the top of each ranking that the README shows.
pub struct TopRepos<'a> {
    pub my_most_recent: Vec<&'a OneRepo>,
    pub other_most_recent: Vec<&'a OneRepo>,
    pub most_starred: Vec<&'a OneRepo>,
    pub most_forked: Vec<&'a OneRepo>,
}

/// The ten most recently committed of my repositories and of others', and
/// the five most starred and most forked of mine.
pub fn top_repos<'a>(stats: &'a UserAndRepoStats) -> (r: TopRepos<'a>)
    ensures
        is_top(stats.my_repos@, 10, RepoOrder::MostRecentCommit, deref_all(r.my_most_recent@)),
        is_top(stats.other_repos@, 10, RepoOrder::MostRecentCommit, deref_all(r.other_most_recent@)),
        is_top(stats.my_repos@, 5, RepoOrder::MostForks, deref_all(r.most_forked@)),
        is_top(stats.my_repos@, 5, RepoOrder::MostStars, deref_all(r.most_starred@)),
{
    let my_most_recent = top_n(stats.my_repos.as_slice(), 10, RepoOrder::MostRecentCommit);
    let other_most_recent = top_n(stats.other_repos.as_slice(), 10, RepoOrder::MostRecentCommit);
    let most_forked = top_n(stats.my_repos.as_slice(), 5, RepoOrder::MostForks);
    let most_starred = top_n(stats.my_repos.as_slice(), 5, RepoOrder::MostStars);
    TopRepos { my_most_recent, other_most_recent, most_starred, most_forked }
}

/// Some repository of `s` has the name `name`.
pub open spec fn name_seen(s: Seq<RepoView>, name: Seq<char>) -> bool {
    exists|j: int| 0 <= j < s.len() && (#[trigger] s[j]).full_name == name
}

/// The repositories of `s` whose name no earlier one has, in order: the first
/// of each name.
pub open spec fn first_of_each_name(s: Seq<RepoView>) -> Seq<RepoView>
    decreases s.len(),
{
    if s.len() == 0 {
        s
    } else {
        let before = first_of_each_name(s.drop_last());
        if name_seen(s.drop_last(), s.last().full_name) {
            before
        } else {
            before.push(s.last())
        }
    }
}

/// The views of a list of repositories.
pub open spec fn views(repos: Seq<OneRepo>) -> Seq<RepoView> {
    repos.map_values(|r: OneRepo| r@)
}

/// Keeps the first repository of each full name, in order.
pub fn unique_by_full_name(repos: Vec<OneRepo>) -> (r: Vec<OneRepo>)
    ensures
        views(r@) == first_of_each_name(views(repos@)),
{
    let ghost all = views(repos@);
    let n = repos.len();
    let mut keep: Vec<bool> = Vec::new();
    for i in 0..n
        invariant
            n == repos@.len(),
            all == views(repos@),
            keep@.len() == i,
            forall|k: int| 0 <= k < i ==> #[trigger] keep@[k] == !name_seen(all.take(k), all[k].full_name),
    {
        let mut seen = false;
        for j in 0..i
            invariant
                i < n,
                n == repos@.len(),
                all == views(repos@),
                seen == name_seen(all.take(j as int), all[i as int].full_name),
        {
            if repos[j].full_name == repos[i].full_name {
                seen = true;
            }
            assert(all.take(j + 1) == all.take(j as int).push(all[j as int]));
            assert(name_seen(all.take(j as int), all[i as int].full_name) ==> name_seen(
                all.take(j + 1),
                all[i as int].full_name,
            ));
            if repos[j].full_name == repos[i].full_name {
                assert(all.take(j + 1)[j as int] == all[j as int]);
            }
        }
        keep.push(!seen);
    }
    let mut rest = repos;
    let mut out: Vec<OneRepo> = Vec::new();
    for i in 0..n
        invariant
            n == all.len(),
            keep@.len() == n,
            rest@.len() == n - i,
            views(rest@) == all.skip(i as int),
            forall|k: int| 0 <= k < n ==> #[trigger] keep@[k] == !name_seen(all.take(k), all[k].full_name),
            views(out@) == first_of_each_name(all.take(i as int)),
    {
        let ghost raw_before = rest@;
        let ghost rest_before = views(rest@);
        let item = rest.remove(0);
        assert(item == raw_before[0]);
        assert(rest_before[0] == item@);
        assert(rest@ == raw_before.subrange(1, raw_before.len() as int));
        assert(views(rest@) =~= all.skip(i + 1)) by {
            assert forall|k: int| 0 <= k < views(rest@).len() implies views(rest@)[k] == all.skip(i + 1)[k] by {
                assert(views(rest@)[k] == rest@[k]@);
                assert(rest@[k] == raw_before[k + 1]);
                assert(rest_before[k + 1] == raw_before[k + 1]@);
                assert(rest_before[k + 1] == all.skip(i as int)[k + 1]);
            }
        }
        let ghost out_before = views(out@);
        assert(all.take(i + 1).drop_last() == all.take(i as int));
        assert(item@ == all[i as int]);
        if keep[i] {
            out.push(item);
            assert(views(out@) =~= out_before.push(item@));
        }
    }
    assert(all.take(n as int) == all);
    out
}

/// The text of a cell of the README's table: a line, or nothing where the
/// column has run out.
pub open spec fn cell(lines: Seq<Seq<char>>, k: int) -> Seq<char> {
    if k < lines.len() {
        lines[k]
    } else {
        Seq::<char>::empty()
    }
}

/// The rows of a two-column table, as `zip_longest` builds them: as many as
/// the longer column has, with an empty cell where a column has run out.
pub open spec fn is_zipped(left: Seq<Seq<char>>, right: Seq<Seq<char>>, rows: Seq<(String, String)>) -> bool {
    &&& rows.len() == (if left.len() < right.len() { right.len() } else { left.len() })
    &&& forall|k: int| 0 <= k < rows.len() ==> (#[trigger] rows[k]).0@ == cell(left, k) && rows[k].1@ == cell(right, k)
}

/// The views of a list of strings.
pub open spec fn texts(lines: Seq<String>) -> Seq<Seq<char>> {
    lines.map_values(|l: String| l@)
}

/// Pairs the lines of two columns into rows.
pub fn zip_lines(left: Vec<String>, right: Vec<String>) -> (r: Vec<(String, String)>)
    ensures
        is_zipped(texts(left@), texts(right@), r@),
{
    let ghost l = texts(left@);
    let ghost rt = texts(right@);
    let n = if left.len() < right.len() { right.len() } else { left.len() };
    let mut rows: Vec<(String, String)> = Vec::new();
    for k in 0..n
        invariant
            l == texts(left@),
            rt == texts(right@),
            n == (if left@.len() < right@.len() { right@.len() } else { left@.len() }),
            rows@.len() == k,
            forall|j: int| 0 <= j < k ==> (#[trigger] rows@[j]).0@ == cell(l, j) && rows@[j].1@ == cell(rt, j),
    {
        let a = if k < left.len() { left[k].clone() } else { String::new() };
        let b = if k < right.len() { right[k].clone() } else { String::new() };
        rows.push((a, b));
    }
    rows
}

/// The README lines of a list of repositories.
pub open spec fn repo_lines(repos: Seq<&OneRepo>) -> Seq<Seq<char>> {
    repos.map_values(|r: &OneRepo| repo_line(*r))
}

fn lines_of_repos(repos: &[&OneRepo]) -> (r: Vec<String>)
    ensures
        texts(r@) == repo_lines(repos@),
{
    let n = repos.len();
    let mut out: Vec<String> = Vec::new();
    for i in 0..n
        invariant
            n == repos@.len(),
            out@.len() == i,
            forall|j: int| 0 <= j < i ==> (#[trigger] out@[j])@ == repo_line(*repos@[j]),
    {
        out.push(repos[i].string_for_template());
    }
    assert(texts(out@) =~= repo_lines(repos@));
    out
}

/// The rows of the table of recent commits: my repositories on the left,
/// others' on the right.
pub fn repo_pairs_for_template(mine: &[&OneRepo], others: &[&OneRepo]) -> (r: Vec<(String, String)>)
    ensures
        is_zipped(repo_lines(mine@), repo_lines(others@), r@),
{
    zip_lines(lines_of_repos(mine), lines_of_repos(others))
}

} // verus!
