//! Statistics over my repositories: how many there are, of which kind, which
//! languages they are written in, and which were committed to recently.
use vstd::prelude::*;
use vstd::string::*;

use crate::dates::{earlier, instant_of, is_earlier, rfc3339_instant, InvalidTimestamp};
use crate::github_queries::user_repos_query::ReposNodes;
use crate::languages::{
    add_all,
    add_all_fits,
    collect_language_stats,
    contributions,
    contributions_are_colored,
    contributions_colored,
    contributions_fit,
    languages_are_readable,
    languages_readable,
    EntryView,
    LanguageTable,
};
use crate::repos::{
    commit_is_readable,
    first_of_each_name,
    has_readable_commit,
    last_commit_date,
    repo_view_of,
    unique_by_full_name,
    OneRepo,
    RepoView,
};
use crate::laws::law_checked_agrees;
use crate::text::str_eq;

verus! {

/// The GitHub login whose profile the README is.
pub const MY_LOGIN: &'static str = "autarch";

/// The organization that holds most of my repositories.
pub const MY_ORG: &'static str = "houseabsolute";

/// The e-mail address of my commits.
pub const MY_EMAIL: &'static str = "autarch@urth.org";

/// Counts, language statistics and lists of repositories.
pub struct UserAndRepoStats {
    pub created_at: String,
    pub total_repos: i64,
    pub owned_repos: i64,
    pub forked_repos: i64,
    pub live_repos: i64,
    pub all_time_languages: LanguageTable,
    pub recent_languages: LanguageTable,
    pub my_repos: Vec<OneRepo>,
    pub other_repos: Vec<OneRepo>,
}

/// The statistics as the contracts see them.
pub struct StatsView {
    pub created_at: Seq<char>,
    pub total_repos: int,
    pub owned_repos: int,
    pub forked_repos: int,
    pub live_repos: int,
    pub all_time_languages: Seq<EntryView>,
    pub recent_languages: Seq<EntryView>,
    pub my_repos: Seq<RepoView>,
    pub other_repos: Seq<RepoView>,
}

impl View for UserAndRepoStats {
    type V = StatsView;

    open spec fn view(&self) -> StatsView {
        StatsView {
            created_at: self.created_at@,
            total_repos: self.total_repos as int,
            owned_repos: self.owned_repos as int,
            forked_repos: self.forked_repos as int,
            live_repos: self.live_repos as int,
            all_time_languages: self.all_time_languages@,
            recent_languages: self.recent_languages@,
            my_repos: self.my_repos@.map_values(|r: OneRepo| r@),
            other_repos: self.other_repos@.map_values(|r: OneRepo| r@),
        }
    }
}

impl UserAndRepoStats {
    /// Both language tables are well formed.
    pub open spec fn wf(&self) -> bool {
        self.all_time_languages.wf() && self.recent_languages.wf()
    }
}

impl Default for UserAndRepoStats {
    /// No repositories yet.
    fn default() -> (r: UserAndRepoStats)
        ensures
            r.wf(),
            r@.created_at.len() == 0,
            r@.total_repos == 0,
            r@.owned_repos == 0,
            r@.forked_repos == 0,
            r@.live_repos == 0,
            r@.all_time_languages.len() == 0,
            r@.recent_languages.len() == 0,
            r@.my_repos.len() == 0,
            r@.other_repos.len() == 0,
    {
        UserAndRepoStats {
            created_at: String::new(),
            total_repos: 0,
            owned_repos: 0,
            forked_repos: 0,
            live_repos: 0,
            all_time_languages: LanguageTable::new(),
            recent_languages: LanguageTable::new(),
            my_repos: Vec::new(),
            other_repos: Vec::new(),
        }
    }
}

/// Archived, disabled, empty and private repositories are left out.
pub open spec fn is_left_out(repo: ReposNodes) -> bool {
    repo.is_archived || repo.is_disabled || repo.is_empty || repo.is_private
}

/// The repository is mine: I or my organization own it.
pub open spec fn is_mine(repo: ReposNodes) -> bool {
    repo.owner.login@ == MY_LOGIN@ || repo.owner.login@ == MY_ORG@
}

/// What one repository does to the statistics, and the timestamp that stops
/// the collection where chrono cannot parse it.
///
/// A repository of someone else's is listed when its last commit is not
/// before `filter`. One of mine counts, as a fork or as owned; an owned one
/// adds its languages to the all-time statistics and, when committed to
/// since `filter`, to the recent ones, where it also counts as live; an
/// owned one with a last commit is listed.
pub open spec fn repo_step(s: StatsView, repo: ReposNodes, filter: (i64, u32)) -> (StatsView, Option<Seq<char>>) {
    if is_left_out(repo) {
        (s, None)
    } else if !is_mine(repo) {
        match last_commit_date(repo) {
            None => (s, None),
            Some(d) => match rfc3339_instant(d) {
                None => (s, Some(d)),
                Some(t) => if earlier(t, filter) {
                    (s, None)
                } else {
                    (StatsView { other_repos: s.other_repos.push(repo_view_of(repo)), ..s }, None)
                },
            },
        }
    } else if repo.is_fork {
        (StatsView { total_repos: s.total_repos + 1, forked_repos: s.forked_repos + 1, ..s }, None)
    } else {
        let added = contributions(repo.name_with_owner@, repo.languages->0);
        let owned = StatsView {
            total_repos: s.total_repos + 1,
            owned_repos: s.owned_repos + 1,
            all_time_languages: add_all(s.all_time_languages, added),
            ..s
        };
        match last_commit_date(repo) {
            None => (owned, None),
            Some(d) => match rfc3339_instant(d) {
                None => (owned, Some(d)),
                Some(t) => if earlier(t, filter) {
                    (StatsView { my_repos: owned.my_repos.push(repo_view_of(repo)), ..owned }, None)
                } else {
                    (StatsView {
                        recent_languages: add_all(owned.recent_languages, added),
                        live_repos: owned.live_repos + 1,
                        my_repos: owned.my_repos.push(repo_view_of(repo)),
                        ..owned
                    }, None)
                },
            },
        }
    }
}

/// The step on one repository runs without a panic: what it reads is there,
/// each language it adds has a color, and no count or size leaves `i64`.
pub open spec fn repo_step_safe(s: StatsView, repo: ReposNodes, filter: (i64, u32)) -> bool {
    if is_left_out(repo) {
        true
    } else if !is_mine(repo) {
        has_readable_commit(repo)
    } else if repo.is_fork {
        s.total_repos + 1 <= i64::MAX && s.forked_repos + 1 <= i64::MAX
    } else {
        let added = contributions(repo.name_with_owner@, repo.languages->0);
        &&& s.total_repos + 1 <= i64::MAX
        &&& s.owned_repos + 1 <= i64::MAX
        &&& repo.languages is Some
        &&& languages_readable(repo.languages->0)
        &&& contributions_colored(repo.name_with_owner@, repo.languages->0)
        &&& add_all_fits(s.all_time_languages, added)
        &&& has_readable_commit(repo)
        &&& (match last_commit_date(repo) {
            Some(d) => match rfc3339_instant(d) {
                Some(t) => !earlier(t, filter) ==> {
                    &&& add_all_fits(s.recent_languages, added)
                    &&& s.live_repos + 1 <= i64::MAX
                },
                None => true,
            },
            None => true,
        })
    }
}

/// The statistics after the repositories in turn, and the timestamp that
/// stopped them, if one did.
pub open spec fn stats_after(s: StatsView, repos: Seq<ReposNodes>, filter: (i64, u32)) -> (StatsView, Option<Seq<char>>)
    decreases repos.len(),
{
    if repos.len() == 0 {
        (s, None)
    } else {
        let before = stats_after(s, repos.drop_last(), filter);
        if before.1 is Some {
            before
        } else {
            repo_step(before.0, repos.last(), filter)
        }
    }
}

/// Each step on the repositories runs without a panic.
pub open spec fn stats_after_safe(s: StatsView, repos: Seq<ReposNodes>, filter: (i64, u32)) -> bool {
    forall|j: int|
        0 <= j < repos.len() && (#[trigger] stats_after(s, repos.take(j), filter)).1 is None
            ==> repo_step_safe(stats_after(s, repos.take(j), filter).0, repos[j], filter)
}

/// The repositories of a list in which each is present.
pub open spec fn present(repos: Seq<Option<ReposNodes>>) -> Seq<ReposNodes> {
    repos.map_values(|r: Option<ReposNodes>| r->0)
}

/// The position of the first missing repository of a list, or its length
/// where none is missing.
pub open spec fn first_missing(repos: Seq<Option<ReposNodes>>) -> int
    decreases repos.len(),
{
    if repos.len() == 0 {
        0
    } else if first_missing(repos.drop_last()) < repos.len() - 1 {
        first_missing(repos.drop_last())
    } else if repos.last() is None {
        repos.len() - 1
    } else {
        repos.len() as int
    }
}

/// The repositories before the first missing one.
pub open spec fn present_prefix(repos: Seq<Option<ReposNodes>>) -> Seq<ReposNodes> {
    present(repos.take(first_missing(repos)))
}

/// Every repository before `first_missing` is present, and the one there,
/// if any, is missing.
pub proof fn lemma_first_missing(repos: Seq<Option<ReposNodes>>)
    ensures
        0 <= first_missing(repos) <= repos.len(),
        forall|j: int| 0 <= j < first_missing(repos) ==> (#[trigger] repos[j]) is Some,
        first_missing(repos) < repos.len() ==> repos[first_missing(repos)] is None,
        (forall|j: int| 0 <= j < repos.len() ==> (#[trigger] repos[j]) is Some) ==> {
            &&& first_missing(repos) == repos.len()
            &&& present_prefix(repos) == present(repos)
        },
    decreases repos.len(),
{
    if repos.len() > 0 {
        let p = repos.drop_last();
        lemma_first_missing(p);
        assert forall|j: int| 0 <= j < p.len() implies p[j] == repos[j] by {}
        if forall|j: int| 0 <= j < repos.len() ==> (#[trigger] repos[j]) is Some {
            assert(forall|j: int| 0 <= j < p.len() ==> (#[trigger] p[j]) is Some);
            assert(repos[repos.len() - 1] is Some);
        }
    }
    if first_missing(repos) == repos.len() {
        assert(repos.take(repos.len() as int) == repos);
    }
}

/// The checked collection over a list in which a repository may be
/// missing: it goes as over the repositories before the first missing one,
/// and reaching a missing one stops it as a panic would.
pub open spec fn collected_checked(s: StatsView, repos: Seq<Option<ReposNodes>>, filter: (i64, u32)) -> (StatsView, Collected) {
    let c = stats_after_checked(s, present_prefix(repos), filter);
    if first_missing(repos) < repos.len() && c.1 is Done {
        (c.0, Collected::WouldPanic)
    } else {
        c
    }
}

/// Adds one repository to the statistics.
fn collect_one_repo(stats: &mut UserAndRepoStats, repo: ReposNodes, filter_date: (i64, u32)) -> (r: Result<(), InvalidTimestamp>)
    requires
        old(stats).wf(),
        repo_step_safe(old(stats)@, repo, filter_date),
    ensures
        final(stats).wf(),
        final(stats)@ == repo_step(old(stats)@, repo, filter_date).0,
        match r {
            Ok(()) => repo_step(old(stats)@, repo, filter_date).1 is None,
            Err(e) => repo_step(old(stats)@, repo, filter_date).1 == Some(e.text@),
        },
{
    if repo.is_archived || repo.is_disabled || repo.is_empty || repo.is_private {
        return Ok(());
    }
    let mine = str_eq(repo.owner.login.as_str(), MY_LOGIN) || str_eq(repo.owner.login.as_str(), MY_ORG);
    if !mine {
        let t = match repo.committed_date() {
            None => return Ok(()),
            Some(d) => match instant_of(d) {
                Ok(t) => t,
                Err(e) => return Err(e),
            },
        };
        if is_earlier(t, filter_date) {
            return Ok(());
        }
        let one = OneRepo::from(repo);
        stats.other_repos.push(one);
        assert(stats@.other_repos =~= old(stats)@.other_repos.push(one@));
        return Ok(());
    }
    stats.total_repos = stats.total_repos + 1;
    if repo.is_fork {
        stats.forked_repos = stats.forked_repos + 1;
        return Ok(());
    }
    stats.owned_repos = stats.owned_repos + 1;
    match &repo.languages {
        Some(languages) => {
            collect_language_stats(&mut stats.all_time_languages, repo.name_with_owner.as_str(), languages);
        },
        None => {
            assert(false);
        },
    }
    let t = match repo.committed_date() {
        None => return Ok(()),
        Some(d) => match instant_of(d) {
            Ok(t) => t,
            Err(e) => return Err(e),
        },
    };
    if !is_earlier(t, filter_date) {
        match &repo.languages {
            Some(languages) => {
                collect_language_stats(&mut stats.recent_languages, repo.name_with_owner.as_str(), languages);
            },
            None => {
                assert(false);
            },
        }
        stats.live_repos = stats.live_repos + 1;
    }
    let ghost before = stats@;
    let one = OneRepo::from(repo);
    stats.my_repos.push(one);
    assert(stats@.my_repos =~= before.my_repos.push(one@));
    Ok(())
}

/// Adds the repositories, in turn, to the statistics; stops at the first
/// one whose last commit date chrono cannot parse. A repository may be
/// missing from the list only after such a one.
pub fn collect_user_repo_stats(
    stats: &mut UserAndRepoStats,
    repos: Vec<Option<ReposNodes>>,
    filter_date: (i64, u32),
) -> (r: Result<(), InvalidTimestamp>)
    requires
        old(stats).wf(),
        stats_after_safe(old(stats)@, present_prefix(repos@), filter_date),
        first_missing(repos@) < repos@.len() ==> stats_after(old(stats)@, present_prefix(repos@), filter_date).1 is Some,
    ensures
        final(stats).wf(),
        final(stats)@ == stats_after(old(stats)@, present_prefix(repos@), filter_date).0,
        match r {
            Ok(()) => stats_after(old(stats)@, present_prefix(repos@), filter_date).1 is None,
            Err(e) => stats_after(old(stats)@, present_prefix(repos@), filter_date).1 == Some(e.text@),
        },
{
    proof {
        law_checked_agrees(stats@, present_prefix(repos@), filter_date);
    }
    match collect_user_repo_stats_checked(stats, repos, filter_date) {
        Some(r) => r,
        None => {
            assert(false);
            Ok(())
        },
    }
}

/// Whether the step on `repo` runs without a panic.
pub fn repo_step_is_safe(stats: &UserAndRepoStats, repo: &ReposNodes, filter_date: (i64, u32)) -> (r: bool)
    requires
        stats.wf(),
    ensures
        r == repo_step_safe(stats@, *repo, filter_date),
{
    if repo.is_archived || repo.is_disabled || repo.is_empty || repo.is_private {
        return true;
    }
    let mine = str_eq(repo.owner.login.as_str(), MY_LOGIN) || str_eq(repo.owner.login.as_str(), MY_ORG);
    if !mine {
        return commit_is_readable(repo);
    }
    if stats.total_repos == i64::MAX {
        return false;
    }
    if repo.is_fork {
        return stats.forked_repos < i64::MAX;
    }
    if stats.owned_repos == i64::MAX {
        return false;
    }
    let languages = match &repo.languages {
        None => return false,
        Some(l) => l,
    };
    if !languages_are_readable(languages) {
        return false;
    }
    let name = repo.name_with_owner.as_str();
    if !contributions_are_colored(name, languages) {
        return false;
    }
    if !contributions_fit(&stats.all_time_languages, name, languages) {
        return false;
    }
    if !commit_is_readable(repo) {
        return false;
    }
    match repo.committed_date() {
        None => true,
        Some(d) => match instant_of(d) {
            Err(_) => true,
            Ok(t) => {
                if is_earlier(t, filter_date) {
                    true
                } else {
                    stats.live_repos < i64::MAX && contributions_fit(&stats.recent_languages, name, languages)
                }
            },
        },
    }
}

/// How a collection over repositories ended.
pub enum Collected {
    /// Every repository went in.
    Done,
    /// chrono could not parse this last commit date.
    BadTimestamp(Seq<char>),
    /// The next repository lacks what the step reads, or a count or size
    /// would leave `i64`: the step would panic.
    WouldPanic,
}

/// The statistics after the repositories in turn, stopping before the first
/// step that would panic, and how the collection ended.
pub open spec fn stats_after_checked(s: StatsView, repos: Seq<ReposNodes>, filter: (i64, u32)) -> (StatsView, Collected)
    decreases repos.len(),
{
    if repos.len() == 0 {
        (s, Collected::Done)
    } else {
        let before = stats_after_checked(s, repos.drop_last(), filter);
        if !(before.1 is Done) {
            before
        } else if !repo_step_safe(before.0, repos.last(), filter) {
            (before.0, Collected::WouldPanic)
        } else {
            let step = repo_step(before.0, repos.last(), filter);
            match step.1 {
                None => (step.0, Collected::Done),
                Some(t) => (step.0, Collected::BadTimestamp(t)),
            }
        }
    }
}

/// Once a collection ended early, later repositories change nothing.
pub proof fn lemma_checked_stopped_stays(s: StatsView, repos: Seq<ReposNodes>, filter: (i64, u32), j: int)
    requires
        0 <= j <= repos.len(),
        !(stats_after_checked(s, repos.take(j), filter).1 is Done),
    ensures
        stats_after_checked(s, repos, filter) == stats_after_checked(s, repos.take(j), filter),
    decreases repos.len() - j,
{
    if j == repos.len() {
        assert(repos.take(j) == repos);
    } else {
        let shorter = repos.drop_last();
        assert(shorter.take(j) == repos.take(j));
        lemma_checked_stopped_stays(s, shorter, filter, j);
    }
}

/// Adds the repositories, in turn, to the statistics, as
/// `collect_user_repo_stats` does; on reaching a missing repository, or one
/// whose step would panic, stops before it and returns `None`, the
/// statistics holding what was done before.
pub fn collect_user_repo_stats_checked(
    stats: &mut UserAndRepoStats,
    repos: Vec<Option<ReposNodes>>,
    filter_date: (i64, u32),
) -> (r: Option<Result<(), InvalidTimestamp>>)
    requires
        old(stats).wf(),
    ensures
        final(stats).wf(),
        ({
            let c = collected_checked(old(stats)@, repos@, filter_date);
            &&& final(stats)@ == c.0
            &&& match r {
                None => c.1 is WouldPanic,
                Some(Ok(())) => c.1 is Done,
                Some(Err(e)) => c.1 == Collected::BadTimestamp(e.text@),
            }
        }),
{
    let ghost all = repos@;
    let ghost start = stats@;
    let ghost fm = first_missing(all);
    let ghost prefix = present_prefix(all);
    proof {
        lemma_first_missing(all);
    }
    let n = repos.len();
    let mut rest = repos;
    for i in 0..n
        invariant
            n == all.len(),
            all == repos@,
            start == old(stats)@,
            fm == first_missing(all),
            prefix == present_prefix(all),
            0 <= fm <= n,
            forall|j: int| 0 <= j < fm ==> (#[trigger] all[j]) is Some,
            fm < n ==> all[fm] is None,
            i <= fm,
            rest@ == all.skip(i as int),
            stats.wf(),
            stats@ == stats_after_checked(start, present(all.take(i as int)), filter_date).0,
            stats_after_checked(start, present(all.take(i as int)), filter_date).1 is Done,
    {
        let item = rest.remove(0);
        assert(item == all[i as int]);
        assert(rest@ =~= all.skip(i + 1));
        let repo = match item {
            None => {
                proof {
                    assert(fm == i);
                }
                return None;
            },
            Some(repo) => repo,
        };
        let ghost next = present(all.take(i + 1));
        proof {
            assert(fm > i);
            assert(next.drop_last() =~= present(all.take(i as int)));
            assert(next.last() == repo);
            assert(prefix.take(i + 1) =~= next);
        }
        if !repo_step_is_safe(stats, &repo, filter_date) {
            proof {
                lemma_checked_stopped_stays(start, prefix, filter_date, i + 1);
            }
            return None;
        }
        let step = collect_one_repo(stats, repo, filter_date);
        match step {
            Ok(()) => {},
            Err(e) => {
                proof {
                    lemma_checked_stopped_stays(start, prefix, filter_date, i + 1);
                }
                return Some(Err(e));
            },
        }
    }
    proof {
        assert(fm == n);
        assert(all.take(n as int) == all.take(fm));
    }
    Some(Ok(()))
}

/// After all pages: keeps the first of others' repositories of each name, as
/// the same repository can come from more than one query.
pub fn dedup_other_repos(stats: &mut UserAndRepoStats)
    requires
        old(stats).wf(),
    ensures
        final(stats).wf(),
        final(stats)@ == (StatsView { other_repos: first_of_each_name(old(stats)@.other_repos), ..old(stats)@ }),
{
    let mut others: Vec<OneRepo> = Vec::new();
    std::mem::swap(&mut others, &mut stats.other_repos);
    stats.other_repos = unique_by_full_name(others);
}

} // verus!
