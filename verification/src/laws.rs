//! Properties that hold across calls: what the statistics keep true page
//! after page, how the checked collection relates to the exact one, what
//! adding languages does to their total, and that rankings and de-duplication
//! are determined by their inputs.
use vstd::prelude::*;

use crate::convert::same_repo;
use crate::github_queries::organization_repos_query as org;
use crate::github_queries::user_repos_query::{ReposNodes, ReposNodesDefaultBranchRefTarget, ReposNodesLanguages};
use crate::languages::{
    contributions,
    contributions_colored,
    contributions_upto,
    language_colors,
    language_names,
    language_sizes,
    languages_readable,
};
use crate::repos::{has_readable_commit, last_commit_date};
use crate::languages::{add_all, add_size, distinct_names, has_name, named_sum, row_of, size_of, sum_sizes, EntryView};
use crate::repos::{first_of_each_name, is_top, name_seen, repo_keys, OneRepo, RepoOrder, RepoView};
use crate::sorting::{is_stable_order, lemma_lex_asymmetric, lemma_lex_total, lex_lt, lt_at, may_precede};
use crate::text::byte_key;
use vstd::utf8::encode_utf8;
use crate::artists::{artist_keys, artist_line, lowercase, Artist};
use crate::repos::repo_key;
use vstd::set_lib::*;
use crate::activity::{attempt_step_spec, AttemptStep, QUERY_ATTEMPTS};
use crate::github_queries::user_contributed_repos_query::UserContributedReposQueryUserRepositoriesContributedToNodes as ContributedNode;
use crate::pages::contributed_after;
use crate::github_queries::user_contributed_repos_query::UserContributedReposQueryUserRepositoriesContributedToNodesDefaultBranchRefTarget as ContributedTarget;
use crate::dates::{rfc3339_utc_day, DATE_FORMAT};
use crate::stats::{MY_LOGIN, MY_ORG};
use crate::stats::{collected_checked, first_missing, present, present_prefix, is_left_out, repo_step, repo_step_safe, stats_after, stats_after_checked, stats_after_safe, Collected, StatsView};

verus! {

/// The counts agree with each other and with the lists: every counted
/// repository is a fork or owned, every live one is listed, and every listed
/// one is owned.
pub open spec fn counts_consistent(s: StatsView) -> bool {
    &&& s.total_repos == s.owned_repos + s.forked_repos
    &&& 0 <= s.forked_repos
    &&& 0 <= s.live_repos <= s.my_repos.len() <= s.owned_repos
}

/// One repository keeps the counts consistent, and only appends to the lists.
pub proof fn law_step_keeps_counts(s: StatsView, repo: ReposNodes, filter: (i64, u32))
    requires
        counts_consistent(s),
    ensures
        counts_consistent(repo_step(s, repo, filter).0),
        s.my_repos.is_prefix_of(repo_step(s, repo, filter).0.my_repos),
        s.other_repos.is_prefix_of(repo_step(s, repo, filter).0.other_repos),
{
    let t = repo_step(s, repo, filter).0;
    assert(s.my_repos.is_prefix_of(t.my_repos));
    assert(s.other_repos.is_prefix_of(t.other_repos));
}

/// Collecting repositories keeps the counts consistent and only appends to
/// the lists of repositories, whether the collection finishes or stops.
pub proof fn law_collection_keeps_counts(s: StatsView, repos: Seq<ReposNodes>, filter: (i64, u32))
    requires
        counts_consistent(s),
    ensures
        counts_consistent(stats_after(s, repos, filter).0),
        s.my_repos.is_prefix_of(stats_after(s, repos, filter).0.my_repos),
        s.other_repos.is_prefix_of(stats_after(s, repos, filter).0.other_repos),
        counts_consistent(stats_after_checked(s, repos, filter).0),
        s.my_repos.is_prefix_of(stats_after_checked(s, repos, filter).0.my_repos),
        s.other_repos.is_prefix_of(stats_after_checked(s, repos, filter).0.other_repos),
    decreases repos.len(),
{
    if repos.len() > 0 {
        law_collection_keeps_counts(s, repos.drop_last(), filter);
        let b = stats_after(s, repos.drop_last(), filter).0;
        let c = stats_after_checked(s, repos.drop_last(), filter).0;
        law_step_keeps_counts(b, repos.last(), filter);
        law_step_keeps_counts(c, repos.last(), filter);
        let t = repo_step(b, repos.last(), filter).0;
        let u = repo_step(c, repos.last(), filter).0;
        assert(s.my_repos.is_prefix_of(t.my_repos)) by {
            assert(b.my_repos.is_prefix_of(t.my_repos));
        }
        assert(s.other_repos.is_prefix_of(t.other_repos)) by {
            assert(b.other_repos.is_prefix_of(t.other_repos));
        }
        assert(s.my_repos.is_prefix_of(u.my_repos)) by {
            assert(c.my_repos.is_prefix_of(u.my_repos));
        }
        assert(s.other_repos.is_prefix_of(u.other_repos)) by {
            assert(c.other_repos.is_prefix_of(u.other_repos));
        }
    }
}

/// Where no step would panic, the checked collection does what the exact one
/// does: the same statistics, finishing where it finishes and stopping at the
/// same timestamp.
pub proof fn law_checked_agrees(s: StatsView, repos: Seq<ReposNodes>, filter: (i64, u32))
    requires
        stats_after_safe(s, repos, filter),
    ensures
        stats_after_checked(s, repos, filter).0 == stats_after(s, repos, filter).0,
        stats_after_checked(s, repos, filter).1 == match stats_after(s, repos, filter).1 {
            None => Collected::Done,
            Some(t) => Collected::BadTimestamp(t),
        },
    decreases repos.len(),
{
    if repos.len() > 0 {
        let shorter = repos.drop_last();
        assert forall|j: int|
            0 <= j < shorter.len() && (#[trigger] stats_after(s, shorter.take(j), filter)).1 is None
                implies repo_step_safe(stats_after(s, shorter.take(j), filter).0, shorter[j], filter) by {
            assert(shorter.take(j) == repos.take(j));
            assert(stats_after(s, repos.take(j), filter).1 is None);
        }
        law_checked_agrees(s, shorter, filter);
        let j = shorter.len() as int;
        assert(repos.take(j) == shorter);
        if stats_after(s, shorter, filter).1 is None {
            assert(stats_after(s, repos.take(j), filter).1 is None);
            assert(repo_step_safe(stats_after(s, shorter, filter).0, repos[j], filter));
        }
    }
}

proof fn lemma_sum_update(t: Seq<EntryView>, i: int, e: EntryView)
    requires
        0 <= i < t.len(),
    ensures
        sum_sizes(t.update(i, e)) == sum_sizes(t) - t[i].2 + e.2,
    decreases t.len(),
{
    let u = t.update(i, e);
    if i == t.len() - 1 {
        assert(u.drop_last() == t.drop_last());
    } else {
        assert(u.drop_last() == t.drop_last().update(i, e));
        lemma_sum_update(t.drop_last(), i, e);
    }
}

/// Adding a language's bytes adds them to the total, and the language is
/// then in the table.
pub proof fn law_add_size(t: Seq<EntryView>, c: EntryView)
    ensures
        sum_sizes(add_size(t, c)) == sum_sizes(t) + c.2,
        has_name(add_size(t, c), c.0),
        forall|n: Seq<char>| has_name(t, n) ==> has_name(add_size(t, c), n),
{
    if has_name(t, c.0) {
        let i = row_of(t, c.0);
        lemma_sum_update(t, i, (t[i].0, t[i].1, t[i].2 + c.2));
        let u = add_size(t, c);
        assert(u[i].0 == c.0);
        assert forall|n: Seq<char>| has_name(t, n) implies has_name(u, n) by {
            let j = choose|j: int| 0 <= j < t.len() && #[trigger] t[j].0 == n;
            assert(u[j].0 == n);
        }
    } else {
        let u = t.push(c);
        assert(u.drop_last() == t);
        assert(u[t.len() as int].0 == c.0);
        assert forall|n: Seq<char>| has_name(t, n) implies has_name(u, n) by {
            let j = choose|j: int| 0 <= j < t.len() && #[trigger] t[j].0 == n;
            assert(u[j].0 == n);
        }
    }
}

/// Adding the languages of a repository adds all their bytes to the total,
/// and every one of them, and every language there before, is in the table.
pub proof fn law_add_all(t: Seq<EntryView>, cs: Seq<EntryView>)
    ensures
        sum_sizes(add_all(t, cs)) == sum_sizes(t) + sum_sizes(cs),
        forall|k: int| 0 <= k < cs.len() ==> has_name(add_all(t, cs), #[trigger] cs[k].0),
        forall|n: Seq<char>| has_name(t, n) ==> has_name(add_all(t, cs), n),
    decreases cs.len(),
{
    if cs.len() > 0 {
        let before = add_all(t, cs.drop_last());
        law_add_all(t, cs.drop_last());
        law_add_size(before, cs.last());
        assert forall|k: int| 0 <= k < cs.len() implies has_name(add_all(t, cs), #[trigger] cs[k].0) by {
            if k < cs.len() - 1 {
                assert(cs.drop_last()[k] == cs[k]);
            }
        }
    }
}

/// A list of `n` different indices below `n` holds every index below `n`.
proof fn lemma_covers(a: Seq<usize>, n: int, y: int)
    requires
        a.len() == n,
        forall|p: int| 0 <= p < a.len() ==> #[trigger] a[p] < n,
        forall|p: int, q: int| 0 <= p < q < a.len() ==> a[p] != a[q],
        0 <= y < n,
    ensures
        exists|r: int| 0 <= r < a.len() && a[r] == y,
{
    let ai = a.map_values(|x: usize| x as int);
    assert(ai.no_duplicates()) by {
        assert forall|p: int, q: int| 0 <= p < ai.len() && 0 <= q < ai.len() && p != q implies ai[p] != ai[q] by {
            if p < q {
                assert(a[p] != a[q]);
            } else {
                assert(a[q] != a[p]);
            }
        }
    }
    ai.unique_seq_to_set();
    lemma_int_range(0, n);
    assert(ai.to_set().subset_of(set_int_range(0, n))) by {
        assert forall|x: int| ai.to_set().contains(x) implies set_int_range(0, n).contains(x) by {
            let p = choose|p: int| 0 <= p < ai.len() && ai[p] == x;
            assert(a[p] < n);
        }
    }
    vstd::seq_lib::seq_to_set_is_finite(ai);
    lemma_subset_equality(ai.to_set(), set_int_range(0, n));
    assert(set_int_range(0, n).contains(y));
    assert(ai.to_set().contains(y));
    let r = choose|r: int| 0 <= r < ai.len() && ai[r] == y;
    assert(a[r] == y);
}

/// Two keys that may each stand before the other are equal.
proof fn lemma_precede_both(keys: Seq<Seq<i64>>, descending: bool, x: int, y: int)
    requires
        may_precede(keys, descending, x, y),
        may_precede(keys, descending, y, x),
    ensures
        keys[x] == keys[y],
{
    lemma_lex_total(keys[x], keys[y]);
}

proof fn lemma_first_difference(a: Seq<usize>, b: Seq<usize>, p: int) -> (d: int)
    requires
        a.len() == b.len(),
        0 <= p <= a.len(),
        forall|k: int| 0 <= k < p ==> a[k] == b[k],
        a != b,
    ensures
        p <= d < a.len(),
        a[d] != b[d],
        forall|k: int| 0 <= k < d ==> a[k] == b[k],
    decreases a.len() - p,
{
    if p == a.len() {
        assert(a =~= b);
        p
    } else if a[p] != b[p] {
        p
    } else {
        lemma_first_difference(a, b, p + 1)
    }
}

/// A stable sort is determined by its keys: two orders that both list the
/// indices as a stable sort does are the same.
pub proof fn law_stable_order_unique(keys: Seq<Seq<i64>>, descending: bool, a: Seq<usize>, b: Seq<usize>)
    requires
        is_stable_order(keys, descending, a),
        is_stable_order(keys, descending, b),
    ensures
        a == b,
{
    if a != b {
        let n = keys.len() as int;
        let p = lemma_first_difference(a, b, 0);
        let x = a[p] as int;
        let y = b[p] as int;
        lemma_covers(a, n, y);
        lemma_covers(b, n, x);
        let r = choose|r: int| 0 <= r < a.len() && a[r] == y;
        let q = choose|q: int| 0 <= q < b.len() && b[q] == x;
        if r < p {
            assert(b[r] == y);
        }
        if q < p {
            assert(a[q] == x);
        }
        assert(r != p);
        assert(q != p);
        assert(may_precede(keys, descending, x, y));
        assert(may_precede(keys, descending, y, x));
        lemma_precede_both(keys, descending, x, y);
        assert(a[p] < a[r]);
        assert(b[p] < b[q]);
    }
}

/// The top of a ranking is determined: two lists that are both the first
/// `take` repositories ranked by `order` are the same.
pub proof fn law_top_unique(repos: Seq<OneRepo>, take: int, order: RepoOrder, x: Seq<OneRepo>, y: Seq<OneRepo>)
    requires
        is_top(repos, take, order, x),
        is_top(repos, take, order, y),
    ensures
        x == y,
{
    let rx = choose|ranked: Seq<usize>|
        #![trigger is_stable_order(repo_keys(repos, order), true, ranked)]
        is_stable_order(repo_keys(repos, order), true, ranked)
        && forall|k: int| 0 <= k < x.len() ==> x[k] == repos[ranked[k] as int];
    let ry = choose|ranked: Seq<usize>|
        #![trigger is_stable_order(repo_keys(repos, order), true, ranked)]
        is_stable_order(repo_keys(repos, order), true, ranked)
        && forall|k: int| 0 <= k < y.len() ==> y[k] == repos[ranked[k] as int];
    law_stable_order_unique(repo_keys(repos, order), true, rx, ry);
    assert(x =~= y);
}

/// A shorter top is the start of a longer one.
pub proof fn law_top_prefix(repos: Seq<OneRepo>, order: RepoOrder, small: int, large: int, x: Seq<OneRepo>, y: Seq<OneRepo>)
    requires
        0 <= small <= large,
        is_top(repos, small, order, x),
        is_top(repos, large, order, y),
    ensures
        x.is_prefix_of(y),
{
    let rx = choose|ranked: Seq<usize>|
        #![trigger is_stable_order(repo_keys(repos, order), true, ranked)]
        is_stable_order(repo_keys(repos, order), true, ranked)
        && forall|k: int| 0 <= k < x.len() ==> x[k] == repos[ranked[k] as int];
    let ry = choose|ranked: Seq<usize>|
        #![trigger is_stable_order(repo_keys(repos, order), true, ranked)]
        is_stable_order(repo_keys(repos, order), true, ranked)
        && forall|k: int| 0 <= k < y.len() ==> y[k] == repos[ranked[k] as int];
    law_stable_order_unique(repo_keys(repos, order), true, rx, ry);
    assert(x =~= y.take(x.len() as int));
}

/// No two repositories of the list share a name.
pub open spec fn names_distinct(s: Seq<RepoView>) -> bool {
    forall|i: int, j: int| 0 <= i < j < s.len() ==> s[i].full_name != s[j].full_name
}

/// De-duplication leaves one repository per name, each one of the list, and
/// every name of the list.
pub proof fn law_first_of_each_name(s: Seq<RepoView>)
    ensures
        names_distinct(first_of_each_name(s)),
        forall|k: int| 0 <= k < first_of_each_name(s).len() ==> s.contains(#[trigger] first_of_each_name(s)[k]),
        forall|n: Seq<char>| name_seen(s, n) <==> name_seen(first_of_each_name(s), n),
    decreases s.len(),
{
    if s.len() > 0 {
        let d = s.drop_last();
        law_first_of_each_name(d);
        let before = first_of_each_name(d);
        let out = first_of_each_name(s);
        assert forall|k: int| 0 <= k < out.len() implies s.contains(#[trigger] out[k]) by {
            if k < before.len() {
                assert(d.contains(before[k]));
                let i = choose|i: int| 0 <= i < d.len() && d[i] == before[k];
                assert(s[i] == before[k]);
            } else {
                assert(out[k] == s.last());
                assert(s[s.len() - 1] == s.last());
            }
        }
        assert forall|n: Seq<char>| name_seen(s, n) <==> name_seen(out, n) by {
            if name_seen(s, n) {
                let i = choose|i: int| 0 <= i < s.len() && (#[trigger] s[i]).full_name == n;
                if i < d.len() {
                    assert(d[i] == s[i]);
                    assert(name_seen(d, n));
                    let j = choose|j: int| 0 <= j < before.len() && (#[trigger] before[j]).full_name == n;
                    assert(out[j] == before[j]);
                } else if !name_seen(d, s.last().full_name) {
                    assert(out[before.len() as int] == s.last());
                } else {
                    let j = choose|j: int| 0 <= j < before.len() && (#[trigger] before[j]).full_name == n;
                }
            }
            if name_seen(out, n) {
                let j = choose|j: int| 0 <= j < out.len() && (#[trigger] out[j]).full_name == n;
                if j < before.len() {
                    assert(out[j] == before[j]);
                    assert(name_seen(before, n));
                    let i = choose|i: int| 0 <= i < d.len() && (#[trigger] d[i]).full_name == n;
                    assert(s[i] == d[i]);
                } else {
                    assert(s[s.len() - 1].full_name == n);
                }
            }
        }
        if !name_seen(d, s.last().full_name) {
            assert forall|i: int, j: int| 0 <= i < j < out.len() implies out[i].full_name != out[j].full_name by {
                if j == before.len() {
                    assert(out[i] == before[i]);
                    if out[i].full_name == s.last().full_name {
                        assert(name_seen(before, s.last().full_name));
                    }
                } else {
                    assert(out[i] == before[i]);
                    assert(out[j] == before[j]);
                }
            }
        }
    }
}

/// A list whose names are all different is left as it is, so de-duplicating
/// twice is de-duplicating once.
pub proof fn law_first_of_each_name_keeps_distinct(s: Seq<RepoView>)
    requires
        names_distinct(s),
    ensures
        first_of_each_name(s) == s,
    decreases s.len(),
{
    if s.len() > 0 {
        let d = s.drop_last();
        assert(names_distinct(d)) by {
            assert forall|i: int, j: int| 0 <= i < j < d.len() implies d[i].full_name != d[j].full_name by {
                assert(d[i] == s[i] && d[j] == s[j]);
            }
        }
        law_first_of_each_name_keeps_distinct(d);
        if name_seen(d, s.last().full_name) {
            let i = choose|i: int| 0 <= i < d.len() && (#[trigger] d[i]).full_name == s.last().full_name;
            assert(s[i] == d[i]);
            assert(s[s.len() - 1] == s.last());
        }
        assert(d.push(s.last()) =~= s);
    }
}

/// De-duplicating twice is de-duplicating once.
pub proof fn law_first_of_each_name_idempotent(s: Seq<RepoView>)
    ensures
        first_of_each_name(first_of_each_name(s)) == first_of_each_name(s),
{
    law_first_of_each_name(s);
    law_first_of_each_name_keeps_distinct(first_of_each_name(s));
}

/// The repositories I contributed to are appended to the list of others', and
/// are listed with no forks or stars counted.
pub proof fn law_contributed_appends(others: Seq<RepoView>, nodes: Seq<Option<ContributedNode>>)
    ensures
        others.is_prefix_of(contributed_after(others, nodes).0),
        forall|k: int| others.len() <= k < contributed_after(others, nodes).0.len() ==>
            (#[trigger] contributed_after(others, nodes).0[k]).fork_count == 0
            && contributed_after(others, nodes).0[k].stargazer_count == 0,
    decreases nodes.len(),
{
    if nodes.len() > 0 {
        law_contributed_appends(others, nodes.drop_last());
        let b = contributed_after(others, nodes.drop_last()).0;
        let a = contributed_after(others, nodes).0;
        assert(b.is_prefix_of(a));
        assert forall|k: int| others.len() <= k < a.len() implies (#[trigger] a[k]).fork_count == 0
            && a[k].stargazer_count == 0 by {
            if k < b.len() {
                assert(a[k] == b[k]);
            }
        }
    }
}

/// A query is sent at most `QUERY_ATTEMPTS` times: attempts are counted up
/// one at a time from the first, and the last one with errors gives up.
pub proof fn law_attempts_bounded(attempt: u32, had_errors: bool)
    requires
        1 <= attempt <= QUERY_ATTEMPTS,
    ensures
        attempt_step_spec(attempt, had_errors) matches AttemptStep::Retry(next) ==> next == attempt + 1
            && next <= QUERY_ATTEMPTS,
        attempt == QUERY_ATTEMPTS && had_errors ==> attempt_step_spec(attempt, had_errors) is GiveUp,
        !had_errors ==> attempt_step_spec(attempt, had_errors) is Accept,
{
}

/// Two conversions of the same organization repository read the same commit
/// and the same languages.
proof fn lemma_conversions_read_alike(a: org::ReposNodes, b: ReposNodes, c: ReposNodes)
    requires
        same_repo(a, b),
        same_repo(a, c),
    ensures
        has_readable_commit(b) == has_readable_commit(c),
        last_commit_date(b) == last_commit_date(c),
        b.languages is Some == c.languages is Some,
        b.languages is Some ==> {
            let lb = b.languages->0;
            let lc = c.languages->0;
            &&& lb.edges is Some == lc.edges is Some
            &&& lb.nodes is Some == lc.nodes is Some
            &&& lb.edges is Some ==> lb.edges->0@.len() == lc.edges->0@.len()
                && (forall|i: int| 0 <= i < lb.edges->0@.len() ==> (lb.edges->0@[i] is Some <==> lc.edges->0@[i] is Some))
                && language_sizes(lb) == language_sizes(lc)
            &&& lb.nodes is Some ==> lb.nodes->0@.len() == lc.nodes->0@.len()
                && (forall|i: int| 0 <= i < lb.nodes->0@.len() ==> (lb.nodes->0@[i] is Some <==> lc.nodes->0@[i] is Some))
                && language_names(lb) == language_names(lc)
                && language_colors(lb) == language_colors(lc)
        },
{
    match (a.default_branch_ref, b.default_branch_ref, c.default_branch_ref) {
        (Some(x), Some(y), Some(z)) => {
            match (x.target, y.target, z.target) {
                (Some(tx), Some(ty), Some(tz)) => {
                    match (tx, ty, tz) {
                        (
                            org::ReposNodesDefaultBranchRefTarget::Commit(cx),
                            ReposNodesDefaultBranchRefTarget::Commit(cy),
                            ReposNodesDefaultBranchRefTarget::Commit(cz),
                        ) => {
                            match (cx.history.nodes, cy.history.nodes, cz.history.nodes) {
                                (Some(vx), Some(vy), Some(vz)) => {
                                    if vx@.len() > 0 {
                                        assert(vx@[0] is Some <==> vy@[0] is Some);
                                        assert(vx@[0] is Some <==> vz@[0] is Some);
                                    }
                                },
                                _ => {},
                            }
                        },
                        _ => {},
                    }
                },
                _ => {},
            }
        },
        _ => {},
    }
    match (a.languages, b.languages, c.languages) {
        (Some(la), Some(lb), Some(lc)) => {
            match (la.edges, lb.edges, lc.edges) {
                (Some(ea), Some(eb), Some(ec)) => {
                    assert forall|i: int| 0 <= i < eb@.len() implies (eb@[i] is Some <==> ec@[i] is Some) by {
                        assert(ea@[i] is Some <==> eb@[i] is Some);
                        assert(ea@[i] is Some <==> ec@[i] is Some);
                    }
                    assert(language_sizes(lb) =~= language_sizes(lc)) by {
                        assert forall|i: int| 0 <= i < eb@.len() implies eb@[i]->0.size == ec@[i]->0.size by {
                            assert(ea@[i] is Some <==> eb@[i] is Some);
                            assert(ea@[i] is Some <==> ec@[i] is Some);
                        }
                    }
                },
                _ => {},
            }
            match (la.nodes, lb.nodes, lc.nodes) {
                (Some(na), Some(nb), Some(nc)) => {
                    assert forall|i: int| 0 <= i < nb@.len() implies (nb@[i] is Some <==> nc@[i] is Some) && nb@[i]->0
                        == nc@[i]->0 by {
                        assert(na@[i] is Some <==> nb@[i] is Some);
                        assert(na@[i] is Some <==> nc@[i] is Some);
                    }
                    assert(language_names(lb) =~= language_names(lc));
                    assert(language_colors(lb) =~= language_colors(lc));
                },
                _ => {},
            }
        },
        _ => {},
    }
}

/// How an organization repository is turned into a user repository does
/// not matter: any two conversions that keep every field do the same to the
/// statistics, and are safe alike.
pub proof fn law_conversion_same_step(s: StatsView, a: org::ReposNodes, b: ReposNodes, c: ReposNodes, filter: (i64, u32))
    requires
        same_repo(a, b),
        same_repo(a, c),
    ensures
        repo_step(s, b, filter) == repo_step(s, c, filter),
        repo_step_safe(s, b, filter) == repo_step_safe(s, c, filter),
{
    lemma_conversions_read_alike(a, b, c);
    assert(b.name_with_owner == c.name_with_owner);
    if b.languages is Some {
        let lb = b.languages->0;
        let lc = c.languages->0;
        let repo = b.name_with_owner@;
        assert(languages_readable(lb) == languages_readable(lc)) by {
            if lb.edges is Some && lb.nodes is Some {
                assert((forall|i: int| 0 <= i < lb.edges->0@.len() ==> (#[trigger] lb.edges->0@[i]) is Some)
                    == (forall|i: int| 0 <= i < lc.edges->0@.len() ==> (#[trigger] lc.edges->0@[i]) is Some));
                assert((forall|i: int| 0 <= i < lb.nodes->0@.len() ==> (#[trigger] lb.nodes->0@[i]) is Some)
                    == (forall|i: int| 0 <= i < lc.nodes->0@.len() ==> (#[trigger] lc.nodes->0@[i]) is Some));
            }
        }
        if lb.edges is None {
            assert(lb.edges == lc.edges);
        }
        if lb.nodes is None {
            assert(lb.nodes == lc.nodes);
        }
        assert(language_sizes(lb) == language_sizes(lc));
        assert(language_names(lb) == language_names(lc));
        assert(language_colors(lb) == language_colors(lc));
        lemma_contributions_alike(repo, lb, lc, language_sizes(lb).len() - 1);
        assert(contributions(repo, lb) == contributions(repo, lc));
        assert(contributions_colored(repo, lb) == contributions_colored(repo, lc));
    } else {
        assert(b.languages == c.languages);
    }
}

/// The contributions of two language lists with the same sizes, names and
/// colors are the same.
proof fn lemma_contributions_alike(repo: Seq<char>, lb: ReposNodesLanguages, lc: ReposNodesLanguages, k: int)
    requires
        language_sizes(lb) == language_sizes(lc),
        language_names(lb) == language_names(lc),
        language_colors(lb) == language_colors(lc),
    ensures
        contributions_upto(repo, lb, k) == contributions_upto(repo, lc, k),
    decreases k,
{
    if k > 0 {
        lemma_contributions_alike(repo, lb, lc, k - 1);
    }
}


/// In a table whose rows hold different languages, the row of a language is
/// the one that holds it.
proof fn lemma_row_unique(t: Seq<EntryView>, name: Seq<char>, i: int)
    requires
        distinct_names(t),
        0 <= i < t.len(),
        t[i].0 == name,
    ensures
        has_name(t, name),
        row_of(t, name) == i,
{
    assert(has_name(t, name));
    let j = row_of(t, name);
    if j < i {
        assert(t[j].0 != t[i].0);
    } else if i < j {
        assert(t[i].0 != t[j].0);
    }
}

/// What adding one language's bytes does to each language of the table.
proof fn lemma_add_size_named(t: Seq<EntryView>, c: EntryView, name: Seq<char>)
    requires
        distinct_names(t),
    ensures
        distinct_names(add_size(t, c)),
        has_name(add_size(t, c), name) <==> (has_name(t, name) || c.0 == name),
        size_of(add_size(t, c), name) == size_of(t, name) + if c.0 == name { c.2 } else { 0 },
{
    let u = add_size(t, c);
    if has_name(t, c.0) {
        let i = row_of(t, c.0);
        assert(u.len() == t.len());
        assert(forall|k: int| 0 <= k < t.len() ==> #[trigger] u[k].0 == t[k].0);
        assert(distinct_names(u));
        if has_name(t, name) {
            let j = row_of(t, name);
            lemma_row_unique(u, name, j);
            if name == c.0 {
                lemma_row_unique(t, name, i);
            } else {
                assert(j != i);
            }
        } else {
            if has_name(u, name) {
                let j = choose|j: int| 0 <= j < u.len() && #[trigger] u[j].0 == name;
                assert(t[j].0 == name);
            }
        }
    } else {
        assert(u == t.push(c));
        assert(forall|k: int| 0 <= k < t.len() ==> #[trigger] u[k] == t[k]);
        assert forall|a: int, b: int| 0 <= a < b < u.len() implies u[a].0 != u[b].0 by {
            if b == t.len() {
                if u[a].0 == c.0 {
                    assert(t[a].0 == c.0);
                }
            } else {
                assert(t[a].0 != t[b].0);
            }
        }
        if has_name(t, name) {
            let j = row_of(t, name);
            lemma_row_unique(u, name, j);
        } else if name == c.0 {
            lemma_row_unique(u, name, t.len() as int);
        } else {
            if has_name(u, name) {
                let j = choose|j: int| 0 <= j < u.len() && #[trigger] u[j].0 == name;
                assert(t[j].0 == name);
            }
        }
    }
}

/// What adding a list of languages' bytes does to each language of the
/// table: it is there where it was before or among the additions, and it
/// grows by the bytes the additions give it.
proof fn lemma_add_all_named(t: Seq<EntryView>, cs: Seq<EntryView>, name: Seq<char>)
    requires
        distinct_names(t),
    ensures
        distinct_names(add_all(t, cs)),
        has_name(add_all(t, cs), name) <==> (has_name(t, name) || has_name(cs, name)),
        size_of(add_all(t, cs), name) == size_of(t, name) + named_sum(cs, name),
    decreases cs.len(),
{
    if cs.len() > 0 {
        let p = cs.drop_last();
        lemma_add_all_named(t, p, name);
        lemma_add_size_named(add_all(t, p), cs.last(), name);
        if has_name(cs, name) {
            let k = choose|k: int| 0 <= k < cs.len() && #[trigger] cs[k].0 == name;
            if k < p.len() {
                assert(p[k].0 == name);
            }
        }
        if has_name(p, name) {
            let k = choose|k: int| 0 <= k < p.len() && #[trigger] p[k].0 == name;
            assert(cs[k].0 == name);
        }
        if cs.last().0 == name {
            assert(cs[cs.len() - 1].0 == name);
        }
    }
}

/// Adding the languages of two repositories in either order gives the same
/// languages with the same bytes; only the order of the rows, and the color
/// of a language that both add first, can differ.
pub proof fn law_languages_commute(
    t: Seq<EntryView>,
    repo1: Seq<char>,
    l1: ReposNodesLanguages,
    repo2: Seq<char>,
    l2: ReposNodesLanguages,
)
    requires
        distinct_names(t),
    ensures
        ({
            let x = add_all(add_all(t, contributions(repo1, l1)), contributions(repo2, l2));
            let y = add_all(add_all(t, contributions(repo2, l2)), contributions(repo1, l1));
            &&& distinct_names(x)
            &&& distinct_names(y)
            &&& forall|n: Seq<char>| #[trigger] has_name(x, n) <==> has_name(y, n)
            &&& forall|n: Seq<char>| #[trigger] size_of(x, n) == size_of(y, n)
        }),
{
    let c1 = contributions(repo1, l1);
    let c2 = contributions(repo2, l2);
    let a1 = add_all(t, c1);
    let a2 = add_all(t, c2);
    let x = add_all(a1, c2);
    let y = add_all(a2, c1);
    assert forall|n: Seq<char>| (#[trigger] has_name(x, n) <==> has_name(y, n)) && size_of(x, n) == size_of(y, n) by {
        lemma_add_all_named(t, c1, n);
        lemma_add_all_named(t, c2, n);
        lemma_add_all_named(a1, c2, n);
        lemma_add_all_named(a2, c1, n);
    }
    let e = Seq::<char>::empty();
    lemma_add_all_named(t, c1, e);
    lemma_add_all_named(t, c2, e);
    lemma_add_all_named(a1, c2, e);
    lemma_add_all_named(a2, c1, e);
}

/// GitHub lists no language of a repository with a negative size.
pub open spec fn sizes_nonneg(l: ReposNodesLanguages) -> bool {
    forall|i: int| 0 <= i < language_sizes(l).len() ==> #[trigger] language_sizes(l)[i] >= 0
}

/// Every language of the recent statistics is in the all-time statistics,
/// with no more bytes there than in the all-time ones, and not fewer than
/// none; each table has one row per language.
pub open spec fn recent_within(s: StatsView) -> bool {
    &&& distinct_names(s.all_time_languages)
    &&& distinct_names(s.recent_languages)
    &&& forall|n: Seq<char>| #[trigger] has_name(s.recent_languages, n) ==> {
        &&& has_name(s.all_time_languages, n)
        &&& 0 <= size_of(s.recent_languages, n) <= size_of(s.all_time_languages, n)
    }
}

/// No all-time language that is not among the recent ones has a negative
/// size. (For a recent one, `recent_within` already says so.)
pub open spec fn others_nonneg(s: StatsView) -> bool {
    forall|n: Seq<char>|
        #[trigger] has_name(s.all_time_languages, n) && !has_name(s.recent_languages, n)
            ==> size_of(s.all_time_languages, n) >= 0
}

proof fn lemma_contributions_nonneg(repo: Seq<char>, l: ReposNodesLanguages, k: int)
    requires
        sizes_nonneg(l),
        k <= language_sizes(l).len(),
    ensures
        forall|j: int| 0 <= j < contributions_upto(repo, l, k).len() ==> #[trigger] contributions_upto(repo, l, k)[j].2 >= 0,
    decreases k,
{
    if k > 0 {
        lemma_contributions_nonneg(repo, l, k - 1);
        assert(language_sizes(l)[k - 1] >= 0);
        let prev = contributions_upto(repo, l, k - 1);
        let cur = contributions_upto(repo, l, k);
        assert forall|j: int| 0 <= j < cur.len() implies #[trigger] cur[j].2 >= 0 by {
            if j < prev.len() {
                assert(cur[j] == prev[j]);
            }
        }
    }
}

proof fn lemma_named_sum_nonneg(cs: Seq<EntryView>, name: Seq<char>)
    requires
        forall|j: int| 0 <= j < cs.len() ==> #[trigger] cs[j].2 >= 0,
    ensures
        named_sum(cs, name) >= 0,
    decreases cs.len(),
{
    if cs.len() > 0 {
        let p = cs.drop_last();
        assert forall|j: int| 0 <= j < p.len() implies #[trigger] p[j].2 >= 0 by {
            assert(p[j] == cs[j]);
        }
        lemma_named_sum_nonneg(p, name);
        assert(cs[cs.len() - 1].2 >= 0);
    }
}

/// One repository keeps the recent languages within the all-time ones.
proof fn lemma_step_keeps_within(s: StatsView, repo: ReposNodes, filter: (i64, u32))
    requires
        recent_within(s),
        others_nonneg(s),
        repo_step_safe(s, repo, filter),
        repo.languages is Some ==> sizes_nonneg(repo.languages->0),
    ensures
        recent_within(repo_step(s, repo, filter).0),
        others_nonneg(repo_step(s, repo, filter).0),
{
    let t = repo_step(s, repo, filter).0;
    assert forall|n: Seq<char>| #[trigger] has_name(s.all_time_languages, n) implies size_of(s.all_time_languages, n) >= 0 by {
        if has_name(s.recent_languages, n) {
        }
    }
    if !is_left_out(repo) && crate::stats::is_mine(repo) && !repo.is_fork {
        let l = repo.languages->0;
        let added = contributions(repo.name_with_owner@, l);
        if language_sizes(l).len() > 0 && !crate::languages::is_ignored_repo(repo.name_with_owner@) {
            lemma_contributions_nonneg(repo.name_with_owner@, l, language_sizes(l).len() - 1);
        }
        assert(forall|j: int| 0 <= j < added.len() ==> #[trigger] added[j].2 >= 0);
        let all = s.all_time_languages;
        let recent = s.recent_languages;
        assert(t.all_time_languages == add_all(all, added));
        assert(t.recent_languages == recent || t.recent_languages == add_all(recent, added));
        let e = Seq::<char>::empty();
        lemma_add_all_named(all, added, e);
        lemma_add_all_named(recent, added, e);
        assert forall|n: Seq<char>| #[trigger] has_name(t.recent_languages, n) implies {
            &&& has_name(t.all_time_languages, n)
            &&& 0 <= size_of(t.recent_languages, n) <= size_of(t.all_time_languages, n)
        } by {
            lemma_add_all_named(all, added, n);
            lemma_add_all_named(recent, added, n);
            lemma_named_sum_nonneg(added, n);
            if has_name(recent, n) {
                assert(has_name(all, n) && 0 <= size_of(recent, n) <= size_of(all, n));
            } else {
                assert(size_of(recent, n) == 0);
            }
            if has_name(all, n) {
                assert(size_of(all, n) >= 0);
            }
            if t.recent_languages == recent {
                assert(has_name(recent, n));
            } else {
                assert(t.recent_languages == add_all(recent, added));
            }
        }
        assert forall|n: Seq<char>|
            #[trigger] has_name(t.all_time_languages, n) && !has_name(t.recent_languages, n)
                implies size_of(t.all_time_languages, n) >= 0 by {
            lemma_add_all_named(all, added, n);
            lemma_named_sum_nonneg(added, n);
            if has_name(all, n) {
                assert(size_of(all, n) >= 0);
            }
        }
    }
}

/// The recent languages stay within the all-time ones: a repository adds its
/// languages to the recent statistics only when it adds the same to the
/// all-time ones. This holds however the collection ends, and where no step
/// would panic, of the exact collection too. It needs `others_nonneg` of the
/// statistics it starts from: were an all-time size negative for a language
/// that is not recent, one recent repository with that language would add
/// more to its recent size than its all-time size comes to.
pub proof fn law_recent_within_all_time(s: StatsView, repos: Seq<ReposNodes>, filter: (i64, u32))
    requires
        recent_within(s),
        others_nonneg(s),
        forall|k: int| 0 <= k < repos.len() && (#[trigger] repos[k]).languages is Some ==> sizes_nonneg(repos[k].languages->0),
    ensures
        recent_within(stats_after_checked(s, repos, filter).0),
        others_nonneg(stats_after_checked(s, repos, filter).0),
        stats_after_safe(s, repos, filter) ==> recent_within(stats_after(s, repos, filter).0),
        stats_after_safe(s, repos, filter) ==> others_nonneg(stats_after(s, repos, filter).0),
    decreases repos.len(),
{
    if repos.len() > 0 {
        let p = repos.drop_last();
        assert forall|k: int| 0 <= k < p.len() && (#[trigger] p[k]).languages is Some implies sizes_nonneg(p[k].languages->0) by {
            assert(p[k] == repos[k]);
        }
        law_recent_within_all_time(s, p, filter);
        let before = stats_after_checked(s, p, filter);
        let last = repos[repos.len() - 1];
        if before.1 is Done && repo_step_safe(before.0, last, filter) {
            lemma_step_keeps_within(before.0, last, filter);
        }
    }
    if stats_after_safe(s, repos, filter) {
        law_checked_agrees(s, repos, filter);
    }
}

/// The collection runs without a panic exactly where the checked collection
/// does not stop for one.
pub proof fn law_safe_iff_no_panic(s: StatsView, repos: Seq<ReposNodes>, filter: (i64, u32))
    ensures
        stats_after_safe(s, repos, filter) <==> !(stats_after_checked(s, repos, filter).1 is WouldPanic),
    decreases repos.len(),
{
    if repos.len() > 0 {
        let p = repos.drop_last();
        let j = p.len() as int;
        law_safe_iff_no_panic(s, p, filter);
        assert(repos.take(j) == p);
        if stats_after_safe(s, repos, filter) {
            assert forall|i: int|
                0 <= i < p.len() && (#[trigger] stats_after(s, p.take(i), filter)).1 is None
                    implies repo_step_safe(stats_after(s, p.take(i), filter).0, p[i], filter) by {
                assert(p.take(i) == repos.take(i));
                assert(stats_after(s, repos.take(i), filter).1 is None);
            }
            if stats_after(s, p, filter).1 is None {
                assert(stats_after(s, repos.take(j), filter).1 is None);
            }
        }
        if stats_after_safe(s, p, filter) {
            law_checked_agrees(s, p, filter);
            if stats_after(s, p, filter).1 is None ==> repo_step_safe(stats_after(s, p, filter).0, repos[j], filter) {
                assert forall|i: int|
                    0 <= i < repos.len() && (#[trigger] stats_after(s, repos.take(i), filter)).1 is None
                        implies repo_step_safe(stats_after(s, repos.take(i), filter).0, repos[i], filter) by {
                    if i < j {
                        assert(p.take(i) == repos.take(i));
                        assert(stats_after(s, p.take(i), filter).1 is None);
                    }
                }
            }
        }
    }
}

/// The repositories that are counted at all: not archived, disabled, empty
/// or private.
pub open spec fn kept() -> spec_fn(ReposNodes) -> bool {
    |r: ReposNodes| !is_left_out(r)
}

/// Archived, disabled, empty and private repositories change nothing:
/// collecting a list gives the same statistics, stops at the same timestamp,
/// and panics exactly where collecting the list without them does.
pub proof fn law_left_out_change_nothing(s: StatsView, repos: Seq<ReposNodes>, filter: (i64, u32))
    ensures
        stats_after(s, repos, filter) == stats_after(s, repos.filter(kept()), filter),
        stats_after_checked(s, repos, filter) == stats_after_checked(s, repos.filter(kept()), filter),
        stats_after_safe(s, repos, filter) <==> stats_after_safe(s, repos.filter(kept()), filter),
    decreases repos.len(),
{
    reveal(Seq::filter);
    if repos.len() > 0 {
        let p = repos.drop_last();
        let f = repos.filter(kept());
        law_left_out_change_nothing(s, p, filter);
        if kept()(repos.last()) {
            assert(f == p.filter(kept()).push(repos.last()));
            assert(f.drop_last() == p.filter(kept()));
            assert(f.last() == repos.last());
        } else {
            assert(f == p.filter(kept()));
        }
    }
    law_safe_iff_no_panic(s, repos, filter);
    law_safe_iff_no_panic(s, repos.filter(kept()), filter);
}

/// The entries of a list that are counted at all: a missing repository is
/// kept, as is every one that is not archived, disabled, empty or private.
pub open spec fn kept_entry() -> spec_fn(Option<ReposNodes>) -> bool {
    |r: Option<ReposNodes>| r is None || !is_left_out(r->0)
}

/// Leaving out the archived, disabled, empty and private repositories of a
/// list leaves the same missing repository first, and of the repositories
/// before it leaves out just those.
proof fn lemma_prefix_filter(repos: Seq<Option<ReposNodes>>)
    ensures
        (first_missing(repos.filter(kept_entry())) < repos.filter(kept_entry()).len())
            <==> (first_missing(repos) < repos.len()),
        present_prefix(repos.filter(kept_entry())) == present_prefix(repos).filter(kept()),
    decreases repos.len(),
{
    reveal(Seq::filter);
    let f = repos.filter(kept_entry());
    if repos.len() == 0 {
        assert(present_prefix(repos) =~= Seq::<ReposNodes>::empty());
        assert(f.len() == 0);
        assert(present_prefix(f) =~= Seq::<ReposNodes>::empty());
    } else {
        let p = repos.drop_last();
        let fp = p.filter(kept_entry());
        let last = repos.last();
        lemma_prefix_filter(p);
        if kept_entry()(last) {
            assert(f == fp.push(last));
            assert(f.drop_last() == fp);
        } else {
            assert(f == fp);
        }
        crate::stats::lemma_first_missing(p);
        crate::stats::lemma_first_missing(fp);
        if first_missing(p) < p.len() {
            let k = first_missing(p);
            assert(repos.take(k) =~= p.take(k));
            let kf = first_missing(fp);
            assert(f.take(kf) =~= fp.take(kf));
        } else {
            assert(first_missing(p) == p.len());
            assert(p.take(p.len() as int) == p);
            assert(first_missing(fp) == fp.len());
            assert(fp.take(fp.len() as int) == fp);
            match last {
                None => {
                    assert(repos.take(p.len() as int) == p);
                    assert(f.take(fp.len() as int) == fp);
                },
                Some(r) => {
                    assert(repos.take(repos.len() as int) == repos);
                    assert(present(repos) == present(p).push(r));
                    assert(present(p).push(r).drop_last() == present(p));
                    if kept()(r) {
                        assert(f.take(f.len() as int) == f);
                        assert(present(f) == present(fp).push(r));
                        assert(present(p).push(r).filter(kept()) == present(p).filter(kept()).push(r));
                    } else {
                        assert(present(p).push(r).filter(kept()) == present(p).filter(kept()));
                    }
                },
            }
        }
    }
}

/// Archived, disabled, empty and private repositories change nothing in a
/// list in which a repository may be missing: the checked collection of the
/// list and of the list without them give the same statistics and end the
/// same way, and the exact collection may be run on the one exactly where it
/// may be run on the other, with the same statistics and result.
pub proof fn law_left_out_change_nothing_in_lists(s: StatsView, repos: Seq<Option<ReposNodes>>, filter: (i64, u32))
    ensures
        collected_checked(s, repos, filter) == collected_checked(s, repos.filter(kept_entry()), filter),
        (first_missing(repos) < repos.len()) <==> (first_missing(repos.filter(kept_entry())) < repos.filter(kept_entry()).len()),
        stats_after(s, present_prefix(repos), filter) == stats_after(s, present_prefix(repos.filter(kept_entry())), filter),
        stats_after_safe(s, present_prefix(repos), filter) <==> stats_after_safe(s, present_prefix(repos.filter(kept_entry())), filter),
{
    lemma_prefix_filter(repos);
    law_left_out_change_nothing(s, present_prefix(repos), filter);
}

/// In the ranking by `order`, repository `a` may stand before `b`: `b` was
/// not committed to later (its date is not greater as text), has no more
/// forks, or has no more stars.
pub open spec fn ranked_before(a: OneRepo, b: OneRepo, order: RepoOrder) -> bool {
    match order {
        RepoOrder::MostRecentCommit => !lex_lt(byte_key(a.committed_date@), byte_key(b.committed_date@)),
        RepoOrder::MostForks => a.fork_count >= b.fork_count,
        RepoOrder::MostStars => a.stargazer_count >= b.stargazer_count,
    }
}

proof fn lemma_key_order(a: OneRepo, b: OneRepo, order: RepoOrder)
    requires
        !lex_lt(repo_key(a, order), repo_key(b, order)),
    ensures
        ranked_before(a, b, order),
{
    match order {
        RepoOrder::MostRecentCommit => {},
        RepoOrder::MostForks => {
            if a.fork_count < b.fork_count {
                assert(lt_at(seq![a.fork_count], seq![b.fork_count], 0));
            }
        },
        RepoOrder::MostStars => {
            if a.stargazer_count < b.stargazer_count {
                assert(lt_at(seq![a.stargazer_count], seq![b.stargazer_count], 0));
            }
        },
    }
}

/// A top list is ranked by its order: the most recently committed (greatest
/// date as text), most forked or most starred first. It is the start of a
/// ranking of all the repositories, each once, in which none stands before
/// one that it does not rank before.
pub proof fn law_top_ranked_first(repos: Seq<OneRepo>, take: int, order: RepoOrder, top: Seq<OneRepo>)
    requires
        is_top(repos, take, order, top),
    ensures
        forall|i: int, j: int| 0 <= i < j < top.len() ==> ranked_before(#[trigger] top[i], #[trigger] top[j], order),
        exists|ranked: Seq<int>| {
            &&& ranked.len() == repos.len()
            &&& forall|p: int| 0 <= p < ranked.len() ==> 0 <= #[trigger] ranked[p] < repos.len()
            &&& forall|p: int, q: int| 0 <= p < q < ranked.len() ==> #[trigger] ranked[p] != #[trigger] ranked[q]
            &&& forall|k: int| 0 <= k < top.len() ==> #[trigger] top[k] == repos[ranked[k]]
            &&& forall|p: int, q: int| 0 <= p < q < ranked.len()
                ==> ranked_before(repos[#[trigger] ranked[p]], repos[#[trigger] ranked[q]], order)
        },
{
    let keys = repo_keys(repos, order);
    let r = choose|ranked: Seq<usize>|
        #![trigger is_stable_order(repo_keys(repos, order), true, ranked)]
        is_stable_order(repo_keys(repos, order), true, ranked)
        && forall|k: int| 0 <= k < top.len() ==> top[k] == repos[ranked[k] as int];
    let ri = r.map_values(|x: usize| x as int);
    assert(keys.len() == repos.len());
    assert(ri.len() == repos.len());
    assert forall|p: int, q: int| 0 <= p < q < ri.len()
        implies ranked_before(repos[#[trigger] ri[p]], repos[#[trigger] ri[q]], order) by {
        assert(may_precede(keys, true, r[p] as int, r[q] as int));
        lemma_key_order(repos[ri[p]], repos[ri[q]], order);
    }
    assert forall|p: int| 0 <= p < ri.len() implies 0 <= #[trigger] ri[p] < repos.len() by {
        assert(r[p] < keys.len());
    }
    assert forall|p: int, q: int| 0 <= p < q < ri.len() implies #[trigger] ri[p] != #[trigger] ri[q] by {
        assert(r[p] != r[q]);
    }
    assert forall|k: int| 0 <= k < top.len() implies #[trigger] top[k] == repos[ri[k]] by {}
    assert forall|i: int, j: int| 0 <= i < j < top.len() implies ranked_before(#[trigger] top[i], #[trigger] top[j], order) by {
        assert(top[i] == repos[ri[i]]);
        assert(top[j] == repos[ri[j]]);
        assert(ranked_before(repos[ri[i]], repos[ri[j]], order));
    }
}

/// The artist lines are in the order of the artists' lowercase names: each
/// artist once, and no line stands before one whose artist's lowercase name
/// is smaller in byte order.
pub proof fn law_artists_by_lowercase_name(artists: Seq<Artist>, lines: Seq<String>)
    requires
        exists|ranked: Seq<usize>|
            #![trigger is_stable_order(artist_keys(artists), false, ranked)]
            is_stable_order(artist_keys(artists), false, ranked)
            && lines.len() == artists.len()
            && forall|k: int| 0 <= k < lines.len() ==> (#[trigger] lines[k])@ == artist_line(artists[ranked[k] as int]),
    ensures
        exists|ranked: Seq<int>| {
            &&& ranked.len() == artists.len()
            &&& lines.len() == artists.len()
            &&& forall|p: int| 0 <= p < ranked.len() ==> 0 <= #[trigger] ranked[p] < artists.len()
            &&& forall|p: int, q: int| 0 <= p < q < ranked.len() ==> #[trigger] ranked[p] != #[trigger] ranked[q]
            &&& forall|k: int| 0 <= k < lines.len() ==> (#[trigger] lines[k])@ == artist_line(artists[ranked[k]])
            &&& forall|p: int, q: int| 0 <= p < q < ranked.len() ==> !lex_lt(
                byte_key(lowercase(artists[#[trigger] ranked[q]].name@)),
                byte_key(lowercase(artists[#[trigger] ranked[p]].name@)),
            )
        },
{
    let keys = artist_keys(artists);
    let r = choose|ranked: Seq<usize>|
        #![trigger is_stable_order(artist_keys(artists), false, ranked)]
        is_stable_order(artist_keys(artists), false, ranked)
        && lines.len() == artists.len()
        && forall|k: int| 0 <= k < lines.len() ==> (#[trigger] lines[k])@ == artist_line(artists[ranked[k] as int]);
    let ri = r.map_values(|x: usize| x as int);
    assert(keys.len() == artists.len());
    assert(ri.len() == artists.len());
    assert forall|p: int, q: int| 0 <= p < q < ri.len() implies !lex_lt(
        byte_key(lowercase(artists[#[trigger] ri[q]].name@)),
        byte_key(lowercase(artists[#[trigger] ri[p]].name@)),
    ) by {
        assert(may_precede(keys, false, r[p] as int, r[q] as int));
    }
    assert forall|p: int| 0 <= p < ri.len() implies 0 <= #[trigger] ri[p] < artists.len() by {
        assert(r[p] < keys.len());
    }
    assert forall|p: int, q: int| 0 <= p < q < ri.len() implies #[trigger] ri[p] != #[trigger] ri[q] by {
        assert(r[p] != r[q]);
    }
    assert forall|k: int| 0 <= k < lines.len() implies (#[trigger] lines[k])@ == artist_line(artists[ri[k]]) by {}
}

/// The date of the last commit that GitHub lists on the default branch of a
/// repository I contributed to, where there is one.
pub open spec fn last_listed_commit(n: ContributedNode) -> Option<Seq<char>> {
    match n.default_branch_ref {
        Some(b) => match b.target {
            Some(ContributedTarget::Commit(c)) => match c.history.nodes {
                Some(v) => if v@.len() > 0 && v@.last() is Some {
                    Some(v@.last()->0.committed_date@)
                } else {
                    None
                },
                None => None,
            },
            _ => None,
        },
        None => None,
    }
}

/// `v` lists node `node`: a repository that neither I nor my organization
/// own, under its name and address, with no forks or stars counted, and the
/// UTC day of the last commit GitHub lists for it.
pub open spec fn lists_contribution(v: RepoView, node: Option<ContributedNode>) -> bool {
    &&& node is Some
    &&& node->0.owner.login@ != MY_LOGIN@
    &&& node->0.owner.login@ != MY_ORG@
    &&& v.full_name == node->0.name_with_owner@
    &&& v.url == node->0.url@
    &&& v.fork_count == 0
    &&& v.stargazer_count == 0
    &&& last_listed_commit(node->0) matches Some(d) && v.committed_date == rfc3339_utc_day(d, DATE_FORMAT@)
}

/// Every repository that pages of repositories I contributed to add to
/// others' repositories comes from one of their nodes, owned by neither me
/// nor my organization, and shows the day of its last listed commit.
pub proof fn law_contributed_are_others(others: Seq<RepoView>, nodes: Seq<Option<ContributedNode>>)
    ensures
        others.is_prefix_of(contributed_after(others, nodes).0),
        forall|k: int| others.len() <= k < contributed_after(others, nodes).0.len() ==>
            exists|i: int| 0 <= i < nodes.len() && lists_contribution(#[trigger] contributed_after(others, nodes).0[k], nodes[i]),
    decreases nodes.len(),
{
    if nodes.len() > 0 {
        let p = nodes.drop_last();
        law_contributed_are_others(others, p);
        let b = contributed_after(others, p).0;
        let a = contributed_after(others, nodes).0;
        assert(b.is_prefix_of(a));
        assert forall|k: int| others.len() <= k < a.len() implies
            exists|i: int| 0 <= i < nodes.len() && lists_contribution(#[trigger] a[k], nodes[i]) by {
            if k < b.len() {
                assert(a[k] == b[k]);
                let i = choose|i: int| 0 <= i < p.len() && lists_contribution(b[k], p[i]);
                assert(p[i] == nodes[i]);
            } else {
                let i = nodes.len() - 1;
                assert(nodes[i] == nodes.last());
                assert(lists_contribution(a[k], nodes[i]));
            }
        }
    }
}

/// Row `e` stands for language `i` of repository `repo`: it has the bytes
/// GitHub lists for that language and its GitHub color where it has one, and
/// its GitHub name, but that C in File-LibMagic counts as XS; of
/// perl-code-tidyall only Perl counts.
pub open spec fn is_row_for(repo: Seq<char>, l: ReposNodesLanguages, e: EntryView, i: int) -> bool {
    &&& e.2 == language_sizes(l)[i]
    &&& (language_colors(l)[i] is Some ==> e.1 == language_colors(l)[i]->0)
    &&& (e.0 == language_names(l)[i] || (repo == "houseabsolute/File-LibMagic"@ && language_names(l)[i] == "C"@
        && e.0 == "XS"@))
    &&& (repo == "houseabsolute/perl-code-tidyall"@ ==> e.0 == "Perl"@)
}

/// Language `i` of `repo` is counted: of perl-code-tidyall only Perl is.
pub open spec fn counted_at(repo: Seq<char>, l: ReposNodesLanguages, i: int) -> bool {
    repo != "houseabsolute/perl-code-tidyall"@ || language_names(l)[i] == "Perl"@
}

/// Row `e` stands for one of the first `k` languages of `repo`.
pub open spec fn row_from_first(repo: Seq<char>, l: ReposNodesLanguages, e: EntryView, k: int) -> bool {
    exists|i: int| 0 <= i < k && #[trigger] is_row_for(repo, l, e, i)
}

/// Some row of `rows` stands for language `i` of `repo`.
pub open spec fn has_row_for(repo: Seq<char>, l: ReposNodesLanguages, rows: Seq<EntryView>, i: int) -> bool {
    exists|j: int| 0 <= j < rows.len() && is_row_for(repo, l, #[trigger] rows[j], i)
}

proof fn lemma_rows_upto(repo: Seq<char>, l: ReposNodesLanguages, k: int)
    requires
        0 <= k,
    ensures
        forall|j: int| 0 <= j < contributions_upto(repo, l, k).len()
            ==> row_from_first(repo, l, #[trigger] contributions_upto(repo, l, k)[j], k),
        forall|i: int| 0 <= i < k && #[trigger] counted_at(repo, l, i)
            ==> has_row_for(repo, l, contributions_upto(repo, l, k), i),
    decreases k,
{
    reveal_strlit("houseabsolute/File-LibMagic");
    reveal_strlit("houseabsolute/perl-code-tidyall");
    reveal_strlit("Perl");
    reveal_strlit("XS");
    reveal_strlit("C");
    assert("houseabsolute/File-LibMagic"@.len() != "houseabsolute/perl-code-tidyall"@.len());
    assert("XS"@.len() != "Perl"@.len());
    if k > 0 {
        lemma_rows_upto(repo, l, k - 1);
        let prev = contributions_upto(repo, l, k - 1);
        let cur = contributions_upto(repo, l, k);
        let lang = crate::languages::counted_language(repo, language_names(l)[k - 1]);
        assert forall|j: int| 0 <= j < cur.len() implies row_from_first(repo, l, #[trigger] cur[j], k) by {
            if j < prev.len() {
                assert(cur[j] == prev[j]);
                assert(row_from_first(repo, l, prev[j], k - 1));
                let i = choose|i: int| 0 <= i < k - 1 && #[trigger] is_row_for(repo, l, prev[j], i);
                assert(is_row_for(repo, l, cur[j], i));
            } else {
                assert(is_row_for(repo, l, cur[j], k - 1));
            }
        }
        assert forall|i: int| 0 <= i < k && #[trigger] counted_at(repo, l, i) implies has_row_for(repo, l, cur, i) by {
            if i < k - 1 {
                assert(has_row_for(repo, l, prev, i));
                let j = choose|j: int| 0 <= j < prev.len() && is_row_for(repo, l, #[trigger] prev[j], i);
                assert(cur[j] == prev[j]);
            } else {
                assert(crate::languages::counts(repo, lang));
                assert(is_row_for(repo, l, cur[prev.len() as int], i));
            }
        }
    }
}

/// The rows a repository adds to the language statistics are its languages
/// but the last one GitHub lists, each under its GitHub name (C in
/// File-LibMagic under XS), with its bytes and GitHub color: every row
/// stands for one of them, and each of them that counts has a row. Of
/// perl-code-tidyall only Perl counts; the two ignored repositories add
/// nothing.
pub proof fn law_language_rows(repo: Seq<char>, l: ReposNodesLanguages)
    ensures
        forall|j: int| 0 <= j < contributions(repo, l).len()
            ==> row_from_first(repo, l, #[trigger] contributions(repo, l)[j], language_sizes(l).len() - 1),
        !(repo == "autarch/presentations"@ || repo == "autarch/masonbook.houseabsolute.com"@) ==>
            forall|i: int| 0 <= i < language_sizes(l).len() - 1 && #[trigger] counted_at(repo, l, i)
                ==> has_row_for(repo, l, contributions(repo, l), i),
        (repo == "autarch/presentations"@ || repo == "autarch/masonbook.houseabsolute.com"@) ==>
            contributions(repo, l).len() == 0,
{
    if language_sizes(l).len() > 0 && !crate::languages::is_ignored_repo(repo) {
        lemma_rows_upto(repo, l, language_sizes(l).len() - 1);
    }
}

proof fn lemma_ascii_bytes(s: Seq<char>)
    requires
        forall|i: int| 0 <= i < s.len() ==> ((#[trigger] s[i]) as u32) < 128,
    ensures
        encode_utf8(s).len() == s.len(),
        forall|i: int| 0 <= i < s.len() ==> encode_utf8(s)[i] as u32 == (#[trigger] s[i]) as u32,
    decreases s.len(),
{
    if s.len() > 0 {
        let t = s.drop_first();
        assert forall|i: int| 0 <= i < t.len() implies ((#[trigger] t[i]) as u32) < 128 by {
            assert(t[i] == s[i + 1]);
        }
        lemma_ascii_bytes(t);
        let v = s[0] as u32;
        assert(v < 128);
        assert((v & 0x7F) == v) by (bit_vector)
            requires
                v < 128,
        ;
        let e = encode_utf8(s);
        assert(e == seq![(v & 0x7F) as u8] + encode_utf8(t));
        assert forall|i: int| 0 <= i < s.len() implies e[i] as u32 == (#[trigger] s[i]) as u32 by {
            if i > 0 {
                assert(e[i] == encode_utf8(t)[i - 1]);
                assert(t[i - 1] == s[i]);
            }
        }
    }
}

/// The key by which text is ordered is, for ASCII text, its characters'
/// codes in turn: comparing keys compares the text character by character.
pub proof fn law_byte_key_ascii(s: Seq<char>)
    requires
        forall|i: int| 0 <= i < s.len() ==> ((#[trigger] s[i]) as u32) < 128,
    ensures
        byte_key(s).len() == s.len(),
        forall|i: int| 0 <= i < s.len() ==> byte_key(s)[i] == (#[trigger] s[i]) as u32,
{
    lemma_ascii_bytes(s);
}

} // verus!
