//! Bytes of code per language, summed over repositories.
use vstd::prelude::*;
use vstd::string::*;

use crate::github_queries::user_repos_query::{
    ReposNodesLanguages,
    ReposNodesLanguagesEdges,
    ReposNodesLanguagesNodes,
};
use crate::repos::{is_zipped, texts, zip_lines};
use crate::sorting::{is_stable_order, stable_order};
use crate::text::{decimal, decimal_i64, str_eq};

verus! {

/// One row of a language table: a language, its color, and the bytes of code
/// in it.
pub struct LanguageEntry {
    pub name: String,
    pub color: String,
    pub size: i64,
}

/// A row as the contracts see it.
pub type EntryView = (Seq<char>, Seq<char>, int);

/// Bytes of code per language. Each language has one row; rows keep the
/// order in which their languages first came.
pub struct LanguageTable {
    entries: Vec<LanguageEntry>,
}

/// The rows hold different languages.
pub open spec fn distinct_names(t: Seq<EntryView>) -> bool {
    forall|i: int, j: int| 0 <= i < j < t.len() ==> t[i].0 != t[j].0
}

/// Some row holds `name`.
pub open spec fn has_name(t: Seq<EntryView>, name: Seq<char>) -> bool {
    exists|i: int| 0 <= i < t.len() && #[trigger] t[i].0 == name
}

/// The row that holds `name`, where there is one.
pub open spec fn row_of(t: Seq<EntryView>, name: Seq<char>) -> int {
    choose|i: int| 0 <= i < t.len() && #[trigger] t[i].0 == name
}

/// The table after `size` more bytes of `name`: an existing row keeps its
/// color and grows by `size`; a new language gets a last row with `color`.
pub open spec fn add_size(t: Seq<EntryView>, c: EntryView) -> Seq<EntryView> {
    if has_name(t, c.0) {
        let i = row_of(t, c.0);
        t.update(i, (t[i].0, t[i].1, t[i].2 + c.2))
    } else {
        t.push(c)
    }
}

/// The table after adding each of `cs` in turn.
pub open spec fn add_all(t: Seq<EntryView>, cs: Seq<EntryView>) -> Seq<EntryView>
    decreases cs.len(),
{
    if cs.len() == 0 {
        t
    } else {
        add_size(add_all(t, cs.drop_last()), cs.last())
    }
}

/// The bytes of `name` in the table: its row's size, or 0 where no row holds
/// it.
pub open spec fn size_of(t: Seq<EntryView>, name: Seq<char>) -> int {
    if has_name(t, name) {
        t[row_of(t, name)].2
    } else {
        0
    }
}

/// The bytes of `name` among the additions `cs`, summed.
pub open spec fn named_sum(cs: Seq<EntryView>, name: Seq<char>) -> int
    decreases cs.len(),
{
    if cs.len() == 0 {
        0
    } else {
        named_sum(cs.drop_last(), name) + if cs.last().0 == name {
            cs.last().2
        } else {
            0
        }
    }
}

/// Adding `c` to `t` leaves every size within `i64`.
pub open spec fn add_fits(t: Seq<EntryView>, c: EntryView) -> bool {
    has_name(t, c.0) ==> i64::MIN <= t[row_of(t, c.0)].2 + c.2 <= i64::MAX
}

/// Adding each of `cs` in turn leaves every size within `i64`.
pub open spec fn add_all_fits(t: Seq<EntryView>, cs: Seq<EntryView>) -> bool {
    forall|j: int| 0 <= j < cs.len() ==> add_fits(#[trigger] add_all(t, cs.take(j)), cs[j])
}

impl View for LanguageTable {
    type V = Seq<EntryView>;

    closed spec fn view(&self) -> Seq<EntryView> {
        self.entries@.map_values(|e: LanguageEntry| (e.name@, e.color@, e.size as int))
    }
}

impl LanguageTable {
    /// Each language has one row, and every size fits in `i64`.
    pub open spec fn wf(&self) -> bool {
        &&& distinct_names(self@)
        &&& forall|i: int| 0 <= i < self@.len() ==> i64::MIN <= #[trigger] self@[i].2 <= i64::MAX
    }

    /// An empty table.
    pub fn new() -> (r: LanguageTable)
        ensures
            r.wf(),
            r@ == Seq::<EntryView>::empty(),
    {
        LanguageTable { entries: Vec::new() }
    }

    /// The number of languages.
    pub fn len(&self) -> (r: usize)
        ensures
            r == self@.len(),
    {
        self.entries.len()
    }

    /// The row at `i`.
    pub fn get(&self, i: usize) -> (r: &LanguageEntry)
        requires
            i < self@.len(),
        ensures
            (r.name@, r.color@, r.size as int) == self@[i as int],
    {
        &self.entries[i]
    }

    /// The row that holds `name`, if there is one.
    fn find(&self, name: &str) -> (r: Option<usize>)
        ensures
            match r {
                Some(i) => i < self@.len() && self@[i as int].0 == name@,
                None => !has_name(self@, name@),
            },
    {
        let n = self.entries.len();
        for i in 0..n
            invariant
                n == self@.len(),
                forall|j: int| 0 <= j < i ==> self@[j].0 != name@,
        {
            if str_eq(self.entries[i].name.as_str(), name) {
                return Some(i);
            }
        }
        None
    }

    /// Adds `size` bytes of `name`; a new language gets `color`.
    pub fn add(&mut self, name: &str, color: &str, size: i64)
        requires
            old(self).wf(),
            add_fits(old(self)@, (name@, color@, size as int)),
        ensures
            final(self).wf(),
            final(self)@ == add_size(old(self)@, (name@, color@, size as int)),
    {
        let ghost c: EntryView = (name@, color@, size as int);
        match self.find(name) {
            Some(i) => {
                proof {
                    assert(has_name(old(self)@, name@));
                    let j = row_of(old(self)@, name@);
                    if i as int != j {
                        if (i as int) < j {
                            assert(old(self)@[i as int].0 != old(self)@[j].0);
                        } else {
                            assert(old(self)@[j].0 != old(self)@[i as int].0);
                        }
                    }
                }
                let old_size = self.entries[i].size;
                let new_size = old_size + size;
                let name_i = self.entries[i].name.clone();
                let color_i = self.entries[i].color.clone();
                self.entries.set(i, LanguageEntry { name: name_i, color: color_i, size: new_size });
                assert(self@ =~= add_size(old(self)@, c));
            },
            None => {
                self.entries.push(LanguageEntry { name: name.to_owned(), color: color.to_owned(), size });
                assert(self@ =~= add_size(old(self)@, c));
            },
        }
    }
}

impl LanguageTable {
    /// A copy of the table.
    pub fn duplicate(&self) -> (r: LanguageTable)
        ensures
            r@ == self@,
    {
        let n = self.entries.len();
        let mut entries: Vec<LanguageEntry> = Vec::new();
        for i in 0..n
            invariant
                n == self.entries@.len(),
                entries@.len() == i,
                forall|j: int| 0 <= j < i ==> (#[trigger] entries@[j]).name@ == self.entries@[j].name@
                    && entries@[j].color@ == self.entries@[j].color@ && entries@[j].size == self.entries@[j].size,
        {
            let e = &self.entries[i];
            entries.push(LanguageEntry { name: e.name.clone(), color: e.color.clone(), size: e.size });
        }
        let r = LanguageTable { entries };
        assert(r@ =~= self@);
        r
    }

    /// Adds `size` bytes of `name` where the sum fits in `i64`, as `add`
    /// does; returns whether it did.
    pub fn try_add(&mut self, name: &str, color: &str, size: i64) -> (r: bool)
        requires
            old(self).wf(),
        ensures
            final(self).wf(),
            r == add_fits(old(self)@, (name@, color@, size as int)),
            r ==> final(self)@ == add_size(old(self)@, (name@, color@, size as int)),
            !r ==> final(self)@ == old(self)@,
    {
        match self.find(name) {
            Some(i) => {
                proof {
                    let j = row_of(old(self)@, name@);
                    if i as int != j {
                        if (i as int) < j {
                            assert(old(self)@[i as int].0 != old(self)@[j].0);
                        } else {
                            assert(old(self)@[j].0 != old(self)@[i as int].0);
                        }
                    }
                }
                let old_size = self.entries[i].size;
                if (size > 0 && old_size > i64::MAX - size) || (size < 0 && old_size < i64::MIN - size) {
                    return false;
                }
                self.add(name, color, size);
                true
            },
            None => {
                self.add(name, color, size);
                true
            },
        }
    }
}

/// The color that the README gives a language: GitHub's, or for the two
/// languages GitHub has none for, a chosen one.
pub open spec fn color_for(lang: Seq<char>, color: Option<Seq<char>>) -> Seq<char> {
    match color {
        Some(c) => c,
        None => if lang == "Perl 6"@ { "#00A9E0"@ } else { "#021c9e"@ },
    }
}

/// A language has a color: GitHub gave one, or it is one of the two the
/// README colors itself.
pub open spec fn has_color(lang: Seq<char>, color: Option<Seq<char>>) -> bool {
    color is Some || lang == "Perl 6"@ || lang == "XS"@
}

/// The color the README gives `lang`, whose GitHub color is `color`.
pub fn language_color<'a, 'b>(lang: &'a str, color: Option<&'b str>) -> (r: &'b str)
    requires
        has_color(lang@, match color { Some(c) => Some(c@), None => None }),
    ensures
        r@ == color_for(lang@, match color { Some(c) => Some(c@), None => None }),
{
    match color {
        Some(c) => c,
        None => {
            if str_eq(lang, "Perl 6") {
                "#00A9E0"
            } else {
                "#021c9e"
            }
        },
    }
}

/// The sizes of a repository's languages, as GitHub lists them.
pub open spec fn language_sizes(l: ReposNodesLanguages) -> Seq<i64> {
    l.edges->0@.map_values(|e: Option<ReposNodesLanguagesEdges>| e->0.size)
}

/// The names of a repository's languages, as GitHub lists them.
pub open spec fn language_names(l: ReposNodesLanguages) -> Seq<Seq<char>> {
    l.nodes->0@.map_values(|n: Option<ReposNodesLanguagesNodes>| n->0.name@)
}

/// The GitHub colors of a repository's languages, as GitHub lists them.
pub open spec fn language_colors(l: ReposNodesLanguages) -> Seq<Option<Seq<char>>> {
    l.nodes->0@.map_values(
        |n: Option<ReposNodesLanguagesNodes>|
            match n->0.color {
                Some(c) => Some(c@),
                None => None,
            },
    )
}

/// The language list can be read without a panic: sizes and languages are
/// all there, one size per language.
pub open spec fn languages_readable(l: ReposNodesLanguages) -> bool {
    &&& l.edges is Some
    &&& l.nodes is Some
    &&& forall|i: int| 0 <= i < l.edges->0@.len() ==> (#[trigger] l.edges->0@[i]) is Some
    &&& forall|i: int| 0 <= i < l.nodes->0@.len() ==> (#[trigger] l.nodes->0@[i]) is Some
    &&& l.edges->0@.len() == l.nodes->0@.len()
}

/// Repositories whose languages are left out of the statistics: code in them
/// that is not mine would distort the numbers.
pub open spec fn is_ignored_repo(repo: Seq<char>) -> bool {
    repo == "autarch/presentations"@ || repo == "autarch/masonbook.houseabsolute.com"@
}

/// The language a repository's language counts as: C in File-LibMagic is XS.
pub open spec fn counted_language(repo: Seq<char>, name: Seq<char>) -> Seq<char> {
    if repo == "houseabsolute/File-LibMagic"@ && name == "C"@ {
        "XS"@
    } else {
        name
    }
}

/// Whether a language of a repository counts: of perl-code-tidyall only the
/// Perl does.
pub open spec fn counts(repo: Seq<char>, lang: Seq<char>) -> bool {
    !(repo == "houseabsolute/perl-code-tidyall"@ && lang != "Perl"@)
}

/// What the first `k` languages of a repository add to the statistics, in
/// order: the language each counts as, its color, and its size.
pub open spec fn contributions_upto(repo: Seq<char>, l: ReposNodesLanguages, k: int) -> Seq<EntryView>
    decreases k,
{
    if k <= 0 {
        seq![]
    } else {
        let prev = contributions_upto(repo, l, k - 1);
        let lang = counted_language(repo, language_names(l)[k - 1]);
        if counts(repo, lang) {
            prev.push((lang, color_for(lang, language_colors(l)[k - 1]), language_sizes(l)[k - 1] as int))
        } else {
            prev
        }
    }
}

/// What a repository adds to the statistics: all its languages but the last
/// one GitHub lists, unless the repository is ignored.
pub open spec fn contributions(repo: Seq<char>, l: ReposNodesLanguages) -> Seq<EntryView> {
    if language_sizes(l).len() == 0 || is_ignored_repo(repo) {
        seq![]
    } else {
        contributions_upto(repo, l, language_sizes(l).len() - 1)
    }
}

/// Every language that a repository adds to the statistics has a color.
pub open spec fn contributions_colored(repo: Seq<char>, l: ReposNodesLanguages) -> bool {
    !(language_sizes(l).len() == 0 || is_ignored_repo(repo)) ==> forall|i: int|
        0 <= i < language_sizes(l).len() - 1 && counts(repo, counted_language(repo, language_names(l)[i]))
            ==> #[trigger] has_color(counted_language(repo, language_names(l)[i]), language_colors(l)[i])
}

/// The contributions of fewer languages come first among those of more.
pub proof fn lemma_contributions_prefix(repo: Seq<char>, l: ReposNodesLanguages, a: int, b: int)
    requires
        0 <= a <= b,
    ensures
        contributions_upto(repo, l, a).len() <= contributions_upto(repo, l, b).len(),
        contributions_upto(repo, l, a) == contributions_upto(repo, l, b).take(
            contributions_upto(repo, l, a).len() as int,
        ),
    decreases b - a,
{
    if a < b {
        lemma_contributions_prefix(repo, l, a, b - 1);
        let x = contributions_upto(repo, l, a);
        let y = contributions_upto(repo, l, b - 1);
        let z = contributions_upto(repo, l, b);
        assert(z.take(x.len() as int) =~= y.take(x.len() as int));
    } else {
        let x = contributions_upto(repo, l, a);
        assert(x.take(x.len() as int) =~= x);
    }
}

/// Adds the languages of repository `repo_name` to `stats`, as
/// `collect_language_stats` does, but first tests each addition: where a size
/// would leave `i64`, it stops there and returns `false`, with the table
/// holding the additions before that one.
pub fn try_collect_language_stats(stats: &mut LanguageTable, repo_name: &str, languages: &ReposNodesLanguages) -> (r: bool)
    requires
        old(stats).wf(),
        languages_readable(*languages),
        contributions_colored(repo_name@, *languages),
    ensures
        final(stats).wf(),
        r == add_all_fits(old(stats)@, contributions(repo_name@, *languages)),
        r ==> final(stats)@ == add_all(old(stats)@, contributions(repo_name@, *languages)),
        !r ==> {
            let cs = contributions(repo_name@, *languages);
            exists|k: int|
                #![trigger add_all(old(stats)@, cs.take(k))]
                0 <= k < cs.len()
                && (forall|j: int| 0 <= j < k ==> add_fits(#[trigger] add_all(old(stats)@, cs.take(j)), cs[j]))
                && !add_fits(add_all(old(stats)@, cs.take(k)), cs[k])
                && final(stats)@ == add_all(old(stats)@, cs.take(k))
        },
{
    let ghost l = *languages;
    let ghost repo = repo_name@;
    let edges = match &languages.edges {
        Some(e) => e,
        None => {
            assert(false);
            return false;
        },
    };
    let nodes = match &languages.nodes {
        Some(n) => n,
        None => {
            assert(false);
            return false;
        },
    };
    let n = edges.len();
    if n == 0 || str_eq(repo_name, "autarch/presentations") || str_eq(
        repo_name,
        "autarch/masonbook.houseabsolute.com",
    ) {
        assert(contributions(repo, l) =~= seq![]);
        return true;
    }
    let ghost all = contributions(repo, l);
    for i in 0..n - 1
        invariant
            n == edges@.len(),
            n == nodes@.len(),
            n > 0,
            edges@ == l.edges->0@,
            nodes@ == l.nodes->0@,
            languages_readable(l),
            !is_ignored_repo(repo),
            language_sizes(l).len() == n,
            repo == repo_name@,
            l == *languages,
            all == contributions_upto(repo, l, n - 1),
            contributions_colored(repo, l),
            stats.wf(),
            contributions_upto(repo, l, i as int) == all.take(contributions_upto(repo, l, i as int).len() as int),
            contributions_upto(repo, l, i as int).len() <= all.len(),
            forall|j: int| 0 <= j < contributions_upto(repo, l, i as int).len() ==>
                add_fits(#[trigger] add_all(old(stats)@, all.take(j)), all[j]),
            stats@ == add_all(old(stats)@, contributions_upto(repo, l, i as int)),
    {
        let name = match &nodes[i] {
            Some(node) => node,
            None => {
                assert(false);
                return false;
            },
        };
        let size = match &edges[i] {
            Some(e) => e.size,
            None => {
                assert(false);
                return false;
            },
        };
        assert(language_names(l)[i as int] == name.name@);
        assert(language_sizes(l)[i as int] == size);
        let lang: &str = if str_eq(repo_name, "houseabsolute/File-LibMagic") && str_eq(name.name.as_str(), "C") {
            "XS"
        } else {
            name.name.as_str()
        };
        assert(lang@ == counted_language(repo, language_names(l)[i as int]));
        proof {
            lemma_contributions_prefix(repo, l, i as int, i + 1);
            lemma_contributions_prefix(repo, l, i + 1, n - 1);
        }
        if str_eq(repo_name, "houseabsolute/perl-code-tidyall") && !str_eq(lang, "Perl") {
            assert(contributions_upto(repo, l, i + 1) == contributions_upto(repo, l, i as int));
        } else {
            let gh_color: Option<&str> = match &name.color {
                Some(c) => Some(c.as_str()),
                None => None,
            };
            assert(language_colors(l)[i as int] == match gh_color { Some(c) => Some(c@), None => None });
            assert(has_color(lang@, language_colors(l)[i as int]));
            let color = language_color(lang, gh_color);
            let ghost prev = contributions_upto(repo, l, i as int);
            let ghost next = contributions_upto(repo, l, i + 1);
            assert(next == prev.push((lang@, color@, size as int)));
            assert(all[prev.len() as int] == next[prev.len() as int]);
            assert(all.take(prev.len() as int) == prev);
            assert(next.drop_last() == prev);
            if !stats.try_add(lang, color, size) {
                assert(!add_fits(add_all(old(stats)@, all.take(prev.len() as int)), all[prev.len() as int]));
                assert(all == contributions(repo_name@, *languages));
                assert(prev.len() < all.len());
                assert(!add_all_fits(old(stats)@, all));
                assert(stats@ == add_all(old(stats)@, all.take(prev.len() as int)));
                return false;
            }
            assert(all.take(next.len() as int) == next);
        }
    }
    assert(all.take(all.len() as int) == all);
    true
}

/// Adds the languages of repository `repo_name` to `stats`: each language
/// but the last that GitHub lists, under the name and with the color it
/// counts with; ignored repositories add nothing.
pub fn collect_language_stats(stats: &mut LanguageTable, repo_name: &str, languages: &ReposNodesLanguages)
    requires
        old(stats).wf(),
        languages_readable(*languages),
        contributions_colored(repo_name@, *languages),
        add_all_fits(old(stats)@, contributions(repo_name@, *languages)),
    ensures
        final(stats).wf(),
        final(stats)@ == add_all(old(stats)@, contributions(repo_name@, *languages)),
{
    try_collect_language_stats(stats, repo_name, languages);
}

/// Whether the language list can be read without a panic.
pub fn languages_are_readable(l: &ReposNodesLanguages) -> (r: bool)
    ensures
        r == languages_readable(*l),
{
    let edges = match &l.edges {
        Some(e) => e,
        None => return false,
    };
    let nodes = match &l.nodes {
        Some(n) => n,
        None => return false,
    };
    if edges.len() != nodes.len() {
        return false;
    }
    let n = edges.len();
    for i in 0..n
        invariant
            n == edges@.len(),
            n == nodes@.len(),
            edges@ == l.edges->0@,
            nodes@ == l.nodes->0@,
            forall|j: int| 0 <= j < i ==> (#[trigger] edges@[j]) is Some && nodes@[j] is Some,
    {
        if edges[i].is_none() || nodes[i].is_none() {
            return false;
        }
    }
    assert forall|j: int| 0 <= j < l.edges->0@.len() implies (#[trigger] l.edges->0@[j]) is Some by {
        assert(edges@[j] is Some);
    }
    assert forall|j: int| 0 <= j < l.nodes->0@.len() implies (#[trigger] l.nodes->0@[j]) is Some by {
        assert(edges@[j] is Some);
    }
    true
}

/// Whether every language that repository `repo_name` adds to the statistics
/// has a color.
pub fn contributions_are_colored(repo_name: &str, l: &ReposNodesLanguages) -> (r: bool)
    requires
        languages_readable(*l),
    ensures
        r == contributions_colored(repo_name@, *l),
{
    let edges = match &l.edges {
        Some(e) => e,
        None => {
            assert(false);
            return false;
        },
    };
    let nodes = match &l.nodes {
        Some(n) => n,
        None => {
            assert(false);
            return false;
        },
    };
    let n = edges.len();
    if n == 0 || str_eq(repo_name, "autarch/presentations") || str_eq(
        repo_name,
        "autarch/masonbook.houseabsolute.com",
    ) {
        return true;
    }
    let ghost repo = repo_name@;
    for i in 0..n - 1
        invariant
            n == edges@.len(),
            n == nodes@.len(),
            n > 0,
            nodes@ == l.nodes->0@,
            edges@ == l.edges->0@,
            languages_readable(*l),
            repo == repo_name@,
            !is_ignored_repo(repo),
            forall|j: int| 0 <= j < i && counts(repo, counted_language(repo, language_names(*l)[j]))
                ==> #[trigger] has_color(counted_language(repo, language_names(*l)[j]), language_colors(*l)[j]),
    {
        let node = match &nodes[i] {
            Some(node) => node,
            None => {
                assert(false);
                return false;
            },
        };
        assert(language_names(*l)[i as int] == node.name@);
        let lang: &str = if str_eq(repo_name, "houseabsolute/File-LibMagic") && str_eq(node.name.as_str(), "C") {
            "XS"
        } else {
            node.name.as_str()
        };
        assert(lang@ == counted_language(repo, language_names(*l)[i as int]));
        let counted = !(str_eq(repo_name, "houseabsolute/perl-code-tidyall") && !str_eq(lang, "Perl"));
        assert(language_colors(*l)[i as int] == match node.color { Some(c) => Some(c@), None => None });
        if counted && node.color.is_none() && !str_eq(lang, "Perl 6") && !str_eq(lang, "XS") {
            assert(!has_color(counted_language(repo, language_names(*l)[i as int]), language_colors(*l)[i as int]));
            return false;
        }
    }
    true
}

/// Whether the sizes of repository `repo_name` can be added to `stats`
/// without a size leaving `i64`.
pub fn contributions_fit(stats: &LanguageTable, repo_name: &str, l: &ReposNodesLanguages) -> (r: bool)
    requires
        stats.wf(),
        languages_readable(*l),
        contributions_colored(repo_name@, *l),
    ensures
        r == add_all_fits(stats@, contributions(repo_name@, *l)),
{
    let mut copy = stats.duplicate();
    try_collect_language_stats(&mut copy, repo_name, l)
}

/// The sum of the sizes of the rows.
pub open spec fn sum_sizes(t: Seq<EntryView>) -> int
    decreases t.len(),
{
    if t.len() == 0 {
        0
    } else {
        sum_sizes(t.drop_last()) + t.last().2
    }
}

/// Summing the rows in order never leaves `i64`.
pub open spec fn sums_fit(t: Seq<EntryView>) -> bool {
    forall|k: int| 0 <= k <= t.len() ==> i64::MIN <= #[trigger] sum_sizes(t.take(k)) <= i64::MAX
}

/// The bytes of code in all languages of the table.
pub fn total_size(languages: &LanguageTable) -> (r: i64)
    requires
        sums_fit(languages@),
    ensures
        r == sum_sizes(languages@),
{
    let n = languages.len();
    let mut total: i64 = 0;
    for i in 0..n
        invariant
            n == languages@.len(),
            sums_fit(languages@),
            total == sum_sizes(languages@.take(i as int)),
    {
        assert(languages@.take(i + 1).drop_last() == languages@.take(i as int));
        assert(i64::MIN <= sum_sizes(languages@.take(i + 1)) <= i64::MAX);
        total = total + languages.get(i).size;
    }
    assert(languages@.take(n as int) == languages@);
    total
}

/// The bytes of code in all languages of the table, or `None` where summing
/// them in order would leave `i64`.
pub fn checked_total_size(languages: &LanguageTable) -> (r: Option<i64>)
    ensures
        r is Some <==> sums_fit(languages@),
        r matches Some(t) ==> t == sum_sizes(languages@),
{
    let n = languages.len();
    let mut total: i64 = 0;
    assert(languages@.take(0) =~= Seq::<EntryView>::empty());
    for i in 0..n
        invariant
            n == languages@.len(),
            total == sum_sizes(languages@.take(i as int)),
            forall|k: int| 0 <= k <= i ==> i64::MIN <= #[trigger] sum_sizes(languages@.take(k)) <= i64::MAX,
    {
        assert(languages@.take(i + 1).drop_last() == languages@.take(i as int));
        let size = languages.get(i).size;
        if (size > 0 && total > i64::MAX - size) || (size < 0 && total < i64::MIN - size) {
            assert(!(i64::MIN <= sum_sizes(languages@.take(i + 1)) <= i64::MAX));
            return None;
        }
        total = total + size;
    }
    assert(languages@.take(n as int) == languages@);
    Some(total)
}

/// A language as the README shows it: its share of the code in percent, and
/// its bytes of code in human units.
pub struct LanguageStat {
    pub name: String,
    pub color: String,
    pub percentage: i64,
    pub bytes: String,
}

/// The README line of a language: `name: percentage%, bytes`.
pub open spec fn language_line(s: LanguageStat) -> Seq<char> {
    s.name@ + seq![':', ' '] + decimal(s.percentage as int) + seq!['%', ',', ' '] + s.bytes@
}

impl LanguageStat {
    /// The README line of the language: `name: percentage%, bytes`.
    pub fn string_for_template(&self) -> (r: String)
        ensures
            r@ == language_line(*self),
    {
        proof {
            reveal_strlit(": ");
            reveal_strlit("%, ");
        }
        let mut s = self.name.clone();
        s.append(": ");
        let pct = decimal_i64(self.percentage);
        s.append(pct.as_str());
        s.append("%, ");
        s.append(self.bytes.as_str());
        s
    }
}

/// The README lines of a list of languages.
pub open spec fn language_lines(stats: Seq<LanguageStat>) -> Seq<Seq<char>> {
    stats.map_values(|s: LanguageStat| language_line(s))
}

fn lines_of_languages(stats: &Vec<LanguageStat>) -> (r: Vec<String>)
    ensures
        texts(r@) == language_lines(stats@),
{
    let n = stats.len();
    let mut out: Vec<String> = Vec::new();
    for i in 0..n
        invariant
            n == stats@.len(),
            out@.len() == i,
            forall|j: int| 0 <= j < i ==> (#[trigger] out@[j])@ == language_line(stats@[j]),
    {
        out.push(stats[i].string_for_template());
    }
    assert(texts(out@) =~= language_lines(stats@));
    out
}

/// The rows of the table of languages: the last two years on the left, all
/// time on the right.
pub fn language_pairs_for_template(
    top_recent_languages: Vec<LanguageStat>,
    top_all_time_languages: Vec<LanguageStat>,
) -> (r: Vec<(String, String)>)
    ensures
        is_zipped(language_lines(top_recent_languages@), language_lines(top_all_time_languages@), r@),
{
    zip_lines(lines_of_languages(&top_recent_languages), lines_of_languages(&top_all_time_languages))
}

/// The key by which languages are ranked: their percentage.
pub open spec fn percentage_keys(stats: Seq<LanguageStat>) -> Seq<Seq<i64>> {
    stats.map_values(|s: LanguageStat| seq![s.percentage])
}

/// The languages ranked by percentage, highest first, equal percentages in
/// the order they came.
pub fn sort_language_stats(stats: Vec<LanguageStat>) -> (r: Vec<LanguageStat>)
    ensures
        exists|ranked: Seq<usize>|
            #![trigger is_stable_order(percentage_keys(stats@), true, ranked)]
            is_stable_order(percentage_keys(stats@), true, ranked)
            && r@.len() == stats@.len()
            && forall|k: int| 0 <= k < r@.len() ==> r@[k] == stats@[ranked[k] as int],
{
    let n = stats.len();
    let mut keys: Vec<Vec<i64>> = Vec::new();
    for i in 0..n
        invariant
            n == stats@.len(),
            keys@.len() == i,
            forall|j: int| 0 <= j < i ==> (#[trigger] keys@[j])@ == seq![stats@[j].percentage],
    {
        keys.push(vec![stats[i].percentage]);
    }
    assert(keys@.map_values(|k: Vec<i64>| k@) =~= percentage_keys(stats@));
    let ranked = stable_order(&keys, true);
    let mut out: Vec<LanguageStat> = Vec::new();
    for k in 0..n
        invariant
            n == stats@.len(),
            is_stable_order(percentage_keys(stats@), true, ranked@),
            out@.len() == k,
            forall|j: int| 0 <= j < k ==> #[trigger] out@[j] == stats@[ranked@[j] as int],
    {
        let s = &stats[ranked[k]];
        out.push(LanguageStat {
            name: s.name.clone(),
            color: s.color.clone(),
            percentage: s.percentage,
            bytes: s.bytes.clone(),
        });
    }
    out
}

} // verus!
